//! Chunk-level model of the PNG container: type codes, checksummed chunks and
//! the ordered chunk list behind the fixed signature.

pub mod be;
pub mod checksum;
pub mod chunk;
pub mod chunk_type;
pub mod commands;
pub mod png;
pub mod text;
