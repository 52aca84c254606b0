//! Chunks: a length, a type code, a payload and a checksum over the last
//! two.

use crate::be::{
    be_bytes,
    be_value,
    lemma_be_bytes_of_value,
    lemma_be_value_bound,
    lemma_be_value_of_bytes,
    u32_from_be,
    u32_to_be,
};
use crate::checksum::{checksum, crc32};
use crate::chunk_type::{is_type_code, ChunkType};
use vstd::prelude::*;
use vstd::slice::{slice_subrange, slice_to_vec};
use vstd::utf8::{decode_utf8, encode_utf8, encode_utf8_decode_utf8, valid_utf8};

verus! {

/// Why bytes could not be read as a chunk.
#[derive(Debug, Clone, Copy, PartialEq, Eq, Structural)]
pub enum ChunkError {
    /// The bytes end before the chunk does.
    Truncated,
    /// The type code holds a byte that is not an ASCII letter.
    InvalidType,
    /// The stored checksum is not the checksum of type code and payload.
    ChecksumMismatch,
}

/// The payload of a chunk is not UTF-8 text.
#[derive(Debug, Clone, Copy, PartialEq, Eq, Structural)]
pub enum EncodingError {
    /// The payload is not well-formed UTF-8.
    InvalidUtf8,
}

/// What a chunk is: its type code and its payload. Length and checksum
/// follow from these two.
pub struct ChunkView {
    pub chunk_type: Seq<u8>,
    pub data: Seq<u8>,
}

impl ChunkView {
    /// The type code is four letters and the payload's length fits the
    /// 32-bit length field.
    pub open spec fn wf(self) -> bool {
        &&& is_type_code(self.chunk_type)
        &&& self.data.len() <= u32::MAX
    }

    /// The checksum: the CRC-32 of the type code followed by the payload.
    pub open spec fn crc(self) -> u32 {
        crc32(self.chunk_type + self.data)
    }

    /// The number of bytes that the encoded chunk takes.
    pub open spec fn size(self) -> nat {
        12 + self.data.len()
    }

    /// The encoded chunk: length, type code, payload, checksum; the two
    /// numbers as four bytes each, most significant first.
    pub open spec fn to_bytes(self) -> Seq<u8> {
        be_bytes(self.data.len() as u32) + self.chunk_type + self.data + be_bytes(self.crc())
    }
}

/// What reading a chunk from the front of `bytes` gives. Bytes behind the
/// chunk are not looked at.
pub open spec fn parse_chunk(bytes: Seq<u8>) -> Result<ChunkView, ChunkError> {
    if bytes.len() < 8 {
        Err(ChunkError::Truncated)
    } else if !is_type_code(bytes.subrange(4, 8)) {
        Err(ChunkError::InvalidType)
    } else {
        let n = be_value(bytes.subrange(0, 4)) as int;
        if bytes.len() < 12 + n {
            Err(ChunkError::Truncated)
        } else {
            let c = ChunkView { chunk_type: bytes.subrange(4, 8), data: bytes.subrange(8, 8 + n) };
            if be_value(bytes.subrange(8 + n, 12 + n)) != c.crc() {
                Err(ChunkError::ChecksumMismatch)
            } else {
                Ok(c)
            }
        }
    }
}

/// An encoded chunk reads back as itself, whatever follows it.
pub proof fn lemma_parse_encoded(c: ChunkView, rest: Seq<u8>)
    requires
        c.wf(),
    ensures
        c.to_bytes().len() == c.size(),
        parse_chunk(c.to_bytes() + rest) == Ok::<ChunkView, ChunkError>(c),
{
    let n = c.data.len() as int;
    let bytes = c.to_bytes() + rest;
    lemma_be_value_of_bytes(n as u32);
    lemma_be_value_of_bytes(c.crc());
    assert(bytes.subrange(0, 4) =~= be_bytes(n as u32));
    assert(bytes.subrange(4, 8) =~= c.chunk_type);
    assert(bytes.subrange(8, 8 + n) =~= c.data);
    assert(bytes.subrange(8 + n, 12 + n) =~= be_bytes(c.crc()));
}

/// Encoding a chunk and reading the bytes back gives the chunk again: the
/// same type code and payload, and so the same length and checksum.
pub proof fn lemma_chunk_round_trip(c: ChunkView)
    requires
        c.wf(),
    ensures
        parse_chunk(c.to_bytes()) == Ok::<ChunkView, ChunkError>(c),
{
    lemma_parse_encoded(c, Seq::empty());
    assert(c.to_bytes() + Seq::<u8>::empty() =~= c.to_bytes());
}

/// Bytes that read as a chunk begin with that chunk's encoding.
pub proof fn lemma_parsed_is_encoded(bytes: Seq<u8>)
    requires
        parse_chunk(bytes) is Ok,
    ensures
        parse_chunk(bytes)->Ok_0.wf(),
        parse_chunk(bytes)->Ok_0.size() <= bytes.len(),
        bytes.subrange(0, parse_chunk(bytes)->Ok_0.size() as int) == parse_chunk(bytes)->Ok_0.to_bytes(),
{
    let c = parse_chunk(bytes)->Ok_0;
    let n = be_value(bytes.subrange(0, 4)) as int;
    lemma_be_value_bound(bytes.subrange(0, 4));
    lemma_be_value_bound(bytes.subrange(8 + n, 12 + n));
    lemma_be_bytes_of_value(bytes.subrange(0, 4));
    lemma_be_bytes_of_value(bytes.subrange(8 + n, 12 + n));
    assert(bytes.subrange(0, 12 + n) =~= c.to_bytes());
}

/// Judges a stored checksum against the one computed over the same chunk.
pub fn check_crc(stored: u32, computed: u32) -> (r: Result<(), ChunkError>)
    ensures
        r == if stored == computed {
            Ok::<(), ChunkError>(())
        } else {
            Err::<(), ChunkError>(ChunkError::ChecksumMismatch)
        },
{
    if stored == computed {
        Ok(())
    } else {
        Err(ChunkError::ChecksumMismatch)
    }
}

/// A chunk of the container. Its length field and its checksum always
/// agree with its type code and payload.
#[derive(Debug)]
pub struct Chunk {
    length: u32,
    chunk_type: ChunkType,
    data: Vec<u8>,
    crc: u32,
}

impl View for Chunk {
    type V = ChunkView;

    closed spec fn view(&self) -> ChunkView {
        ChunkView { chunk_type: self.chunk_type@, data: self.data@ }
    }
}

impl Chunk {
    #[verifier::type_invariant]
    spec fn inv(self) -> bool {
        &&& is_type_code(self.chunk_type@)
        &&& self.length == self.data@.len()
        &&& self.crc == crc32(self.chunk_type@ + self.data@)
    }

    /// The bytes that the checksum is taken over: the type code, then the
    /// payload.
    pub fn get_bytes_for_crc(chunk_type: &ChunkType, data: &Vec<u8>) -> (r: Vec<u8>)
        ensures
            r@ == chunk_type@ + data@,
    {
        let mut container: Vec<u8> = Vec::new();
        let code = chunk_type.bytes();
        container.extend_from_slice(code.as_slice());
        container.extend_from_slice(data.as_slice());
        assert(container@ =~= chunk_type@ + data@);
        container
    }

    /// A chunk of the given type and payload, with the length and the
    /// checksum that belong to them.
    pub fn new(chunk_type: ChunkType, data: Vec<u8>) -> (c: Chunk)
        requires
            data@.len() <= u32::MAX,
        ensures
            c@ == (ChunkView { chunk_type: chunk_type@, data: data@ }),
            c@.wf(),
    {
        let covered = Chunk::get_bytes_for_crc(&chunk_type, &data);
        let crc = checksum(covered.as_slice());
        proof {
            use_type_invariant(&chunk_type);
        }
        Chunk { length: data.len() as u32, chunk_type, data, crc }
    }

    /// Reads a chunk from the front of `bytes`: four bytes of length, four
    /// of type code, the payload, four of checksum. What follows the chunk
    /// is ignored.
    pub fn parse(bytes: &[u8]) -> (r: Result<Chunk, ChunkError>)
        ensures
            match r {
                Ok(c) => {
                    &&& parse_chunk(bytes@) == Ok::<ChunkView, ChunkError>(c@)
                    &&& c@.wf()
                    &&& c@.size() <= bytes@.len()
                    &&& bytes@.subrange(0, c@.size() as int) == c@.to_bytes()
                },
                Err(e) => parse_chunk(bytes@) == Err::<ChunkView, ChunkError>(e),
            },
    {
        proof {
            if parse_chunk(bytes@) is Ok {
                lemma_parsed_is_encoded(bytes@);
            }
        }
        if bytes.len() < 8 {
            return Err(ChunkError::Truncated);
        }
        let head: [u8; 4] = [bytes[0], bytes[1], bytes[2], bytes[3]];
        let code: [u8; 4] = [bytes[4], bytes[5], bytes[6], bytes[7]];
        assert(head@ =~= bytes@.subrange(0, 4));
        assert(code@ =~= bytes@.subrange(4, 8));
        let length = u32_from_be(head);
        let chunk_type = match ChunkType::from_bytes(code) {
            Ok(t) => t,
            Err(_) => {
                return Err(ChunkError::InvalidType);
            },
        };
        let n = length as usize;
        if bytes.len() - 8 < n || bytes.len() - 8 - n < 4 {
            return Err(ChunkError::Truncated);
        }
        let data = slice_to_vec(slice_subrange(bytes, 8, 8 + n));
        let tail: [u8; 4] = [bytes[8 + n], bytes[9 + n], bytes[10 + n], bytes[11 + n]];
        assert(tail@ =~= bytes@.subrange(8 + n, 12 + n));
        let stored = u32_from_be(tail);
        let covered = Chunk::get_bytes_for_crc(&chunk_type, &data);
        let computed = checksum(covered.as_slice());
        match check_crc(stored, computed) {
            Ok(()) => Ok(Chunk { length, chunk_type, data, crc: stored }),
            Err(e) => Err(e),
        }
    }

    /// The payload's length in bytes.
    pub fn length(&self) -> (r: u32)
        ensures
            r == self@.data.len(),
    {
        proof {
            use_type_invariant(self);
        }
        self.length
    }

    /// The type code.
    pub fn chunk_type(&self) -> (r: &ChunkType)
        ensures
            r@ == self@.chunk_type,
            is_type_code(r@),
    {
        proof {
            use_type_invariant(self);
        }
        &self.chunk_type
    }

    /// The payload.
    pub fn data(&self) -> (r: &[u8])
        ensures
            r@ == self@.data,
    {
        self.data.as_slice()
    }

    /// The checksum of type code and payload.
    pub fn crc(&self) -> (r: u32)
        ensures
            r == self@.crc(),
    {
        proof {
            use_type_invariant(self);
        }
        self.crc
    }

    /// The payload as text, where it is well-formed UTF-8.
    pub fn data_as_string(&self) -> (r: Result<String, EncodingError>)
        ensures
            match r {
                Ok(s) => valid_utf8(self@.data) && s@ == decode_utf8(self@.data) && encode_utf8(s@)
                    == self@.data,
                Err(e) => !valid_utf8(self@.data) && e == EncodingError::InvalidUtf8,
            },
    {
        let bytes = slice_to_vec(self.data.as_slice());
        match String::from_utf8(bytes) {
            Ok(s) => {
                proof {
                    encode_utf8_decode_utf8(s@);
                }
                Ok(s)
            },
            Err(_) => Err(EncodingError::InvalidUtf8),
        }
    }

    /// The encoded chunk: length, type code, payload, checksum. `parse`
    /// reads these bytes back as this chunk.
    pub fn as_bytes(&self) -> (r: Vec<u8>)
        ensures
            r@ == self@.to_bytes(),
            self@.wf(),
            parse_chunk(r@) == Ok::<ChunkView, ChunkError>(self@),
    {
        proof {
            use_type_invariant(self);
            lemma_chunk_round_trip(self@);
        }
        let mut container: Vec<u8> = Vec::new();
        let length = u32_to_be(self.length);
        let code = self.chunk_type.bytes();
        let crc = u32_to_be(self.crc);
        container.extend_from_slice(length.as_slice());
        container.extend_from_slice(code.as_slice());
        container.extend_from_slice(self.data.as_slice());
        container.extend_from_slice(crc.as_slice());
        assert(container@ =~= self@.to_bytes());
        container
    }
}

} // verus!
