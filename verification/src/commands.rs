//! The commands, as functions from the bytes of a file to the bytes to
//! write back or the text to show.

use crate::chunk::{Chunk, ChunkView, EncodingError};
use crate::chunk_type::{parse_type, ChunkType, TypeError};
use crate::png::{encode_png, first_of_type, parse_png, ContainerError, Png};
use crate::text::ascii_text;
use vstd::prelude::*;
use vstd::slice::slice_to_vec;
use vstd::string::StringSliceAdditionalSpecFns;
use vstd::utf8::{decode_utf8, encode_utf8, valid_utf8};

verus! {

/// Why a command could not be carried out.
#[derive(Debug, Clone, Copy, PartialEq, Eq, Structural)]
pub enum CommandError {
    /// The file is not a container, or holds no chunk of the type needed.
    Container(ContainerError),
    /// The chunk type given is not a type code.
    Type(TypeError),
    /// The chunk found does not hold text.
    Encoding(EncodingError),
    /// The message has more bytes than a chunk's length field can count.
    MessageTooLong,
}

/// The type codes of the chunks of the container in `bytes`, as text and in
/// order.
pub open spec fn printed(bytes: Seq<u8>) -> Result<Seq<Seq<char>>, CommandError> {
    match parse_png(bytes) {
        Err(e) => Err(CommandError::Container(e)),
        Ok(chunks) => Ok(chunks.map_values(|c: ChunkView| ascii_text(c.chunk_type))),
    }
}

/// The container in `bytes` with a chunk of type `chunk_type` that holds
/// `message`, put where the first `IEND` chunk stood, and that chunk moved
/// behind it to the end.
pub open spec fn encoded(bytes: Seq<u8>, chunk_type: Seq<char>, message: Seq<char>) -> Result<
    Seq<u8>,
    CommandError,
> {
    match parse_png(bytes) {
        Err(e) => Err(CommandError::Container(e)),
        Ok(chunks) => match first_of_type(chunks, "IEND"@) {
            None => Err(CommandError::Container(ContainerError::NotFound)),
            Some(i) => match parse_type(encode_utf8(chunk_type)) {
                Err(e) => Err(CommandError::Type(e)),
                Ok(code) => if encode_utf8(message).len() > u32::MAX {
                    Err(CommandError::MessageTooLong)
                } else {
                    let hidden = ChunkView { chunk_type: code, data: encode_utf8(message) };
                    Ok(encode_png(chunks.remove(i).push(hidden).push(chunks[i])))
                },
            },
        },
    }
}

/// The text held by the first chunk of type `chunk_type` of the container
/// in `bytes`.
pub open spec fn decoded(bytes: Seq<u8>, chunk_type: Seq<char>) -> Result<Seq<char>, CommandError> {
    match parse_png(bytes) {
        Err(e) => Err(CommandError::Container(e)),
        Ok(chunks) => match first_of_type(chunks, chunk_type) {
            None => Err(CommandError::Container(ContainerError::NotFound)),
            Some(i) => if valid_utf8(chunks[i].data) {
                Ok(decode_utf8(chunks[i].data))
            } else {
                Err(CommandError::Encoding(EncodingError::InvalidUtf8))
            },
        },
    }
}

/// The container in `bytes` without its first chunk of type `chunk_type`.
pub open spec fn removed(bytes: Seq<u8>, chunk_type: Seq<char>) -> Result<Seq<u8>, CommandError> {
    match parse_png(bytes) {
        Err(e) => Err(CommandError::Container(e)),
        Ok(chunks) => match first_of_type(chunks, chunk_type) {
            None => Err(CommandError::Container(ContainerError::NotFound)),
            Some(i) => Ok(encode_png(chunks.remove(i))),
        },
    }
}

/// The views of a list of strings.
pub open spec fn texts(lines: Seq<String>) -> Seq<Seq<char>> {
    lines.map_values(|s: String| s@)
}

/// Lists the type codes of the chunks of a file, in order.
pub fn print(bytes: &[u8]) -> (r: Result<Vec<String>, CommandError>)
    ensures
        match r {
            Ok(lines) => printed(bytes@) == Ok::<Seq<Seq<char>>, CommandError>(texts(lines@)),
            Err(e) => printed(bytes@) == Err::<Seq<Seq<char>>, CommandError>(e),
        },
{
    let png = match Png::parse(bytes) {
        Ok(png) => png,
        Err(e) => {
            return Err(CommandError::Container(e));
        },
    };
    let chunks = png.chunks();
    let mut lines: Vec<String> = Vec::new();
    let mut i: usize = 0;
    while i < chunks.len()
        invariant
            i <= chunks@.len(),
            lines@.len() == i,
            forall|j: int| 0 <= j < i ==> (#[trigger] lines@[j])@ == ascii_text(chunks@[j]@.chunk_type),
        decreases chunks@.len() - i,
    {
        lines.push(chunks[i].chunk_type().to_text());
        i += 1;
    }
    assert(texts(lines@) =~= png@.map_values(|c: ChunkView| ascii_text(c.chunk_type)));
    Ok(lines)
}

/// Hides `message` in a file: a new chunk of type `chunk_type` takes the
/// place of the `IEND` chunk, which moves to the end.
pub fn encode(bytes: &[u8], chunk_type: &str, message: &str) -> (r: Result<Vec<u8>, CommandError>)
    ensures
        match r {
            Ok(out) => encoded(bytes@, chunk_type@, message@) == Ok::<Seq<u8>, CommandError>(out@),
            Err(e) => encoded(bytes@, chunk_type@, message@) == Err::<Seq<u8>, CommandError>(e),
        },
{
    let mut png = match Png::parse(bytes) {
        Ok(png) => png,
        Err(e) => {
            return Err(CommandError::Container(e));
        },
    };
    let end = match png.remove_chunk("IEND") {
        Ok(end) => end,
        Err(e) => {
            return Err(CommandError::Container(e));
        },
    };
    let code = match ChunkType::from_text(chunk_type) {
        Ok(code) => code,
        Err(e) => {
            return Err(CommandError::Type(e));
        },
    };
    let data = slice_to_vec(message.as_bytes());
    if data.len() > 0xffff_ffff {
        return Err(CommandError::MessageTooLong);
    }
    png.append_chunk(Chunk::new(code, data));
    png.append_chunk(end);
    Ok(png.as_bytes())
}

/// Reads the message hidden in the first chunk of type `chunk_type` of a
/// file.
pub fn decode(bytes: &[u8], chunk_type: &str) -> (r: Result<String, CommandError>)
    ensures
        match r {
            Ok(text) => decoded(bytes@, chunk_type@) == Ok::<Seq<char>, CommandError>(text@),
            Err(e) => decoded(bytes@, chunk_type@) == Err::<Seq<char>, CommandError>(e),
        },
{
    let png = match Png::parse(bytes) {
        Ok(png) => png,
        Err(e) => {
            return Err(CommandError::Container(e));
        },
    };
    let target = match png.chunk_by_type(chunk_type) {
        Some(target) => target,
        None => {
            return Err(CommandError::Container(ContainerError::NotFound));
        },
    };
    match target.data_as_string() {
        Ok(text) => Ok(text),
        Err(e) => Err(CommandError::Encoding(e)),
    }
}

/// Takes the first chunk of type `chunk_type` out of a file.
pub fn remove(bytes: &[u8], chunk_type: &str) -> (r: Result<Vec<u8>, CommandError>)
    ensures
        match r {
            Ok(out) => removed(bytes@, chunk_type@) == Ok::<Seq<u8>, CommandError>(out@),
            Err(e) => removed(bytes@, chunk_type@) == Err::<Seq<u8>, CommandError>(e),
        },
{
    let mut png = match Png::parse(bytes) {
        Ok(png) => png,
        Err(e) => {
            return Err(CommandError::Container(e));
        },
    };
    match png.remove_chunk(chunk_type) {
        Ok(_) => Ok(png.as_bytes()),
        Err(e) => Err(CommandError::Container(e)),
    }
}

} // verus!
