//! The container: the fixed signature followed by chunks in order.

use crate::chunk::{
    lemma_parse_encoded,
    lemma_parsed_is_encoded,
    parse_chunk,
    Chunk,
    ChunkError,
    ChunkView,
};
use crate::chunk_type::is_type_code;
use crate::text::{ascii_text, lemma_ascii_text};
use vstd::prelude::*;
use vstd::slice::slice_subrange;
use vstd::string::StringSliceAdditionalSpecFns;
use vstd::utf8::encode_utf8;

verus! {

/// Why bytes could not be read as a container, or a chunk not be found in
/// one.
#[derive(Debug, Clone, Copy, PartialEq, Eq, Structural)]
pub enum ContainerError {
    /// The bytes do not begin with the signature.
    BadSignature,
    /// Fewer bytes are left behind the last chunk than any chunk takes.
    Trailing,
    /// No chunk has the type asked for.
    NotFound,
    /// A chunk could not be read.
    Chunk(ChunkError),
}

/// The eight bytes that every container begins with.
pub const STANDARD_HEADER: [u8; 8] = [137, 80, 78, 71, 13, 10, 26, 10];

/// The signature as a sequence.
pub open spec fn signature() -> Seq<u8> {
    STANDARD_HEADER@
}

/// The chunks one after the other, each encoded.
pub open spec fn encode_chunks(chunks: Seq<ChunkView>) -> Seq<u8>
    decreases chunks.len(),
{
    if chunks.len() == 0 {
        Seq::empty()
    } else {
        chunks[0].to_bytes() + encode_chunks(chunks.drop_first())
    }
}

/// The encoded container: the signature, then the chunks.
pub open spec fn encode_png(chunks: Seq<ChunkView>) -> Seq<u8> {
    signature() + encode_chunks(chunks)
}

/// `front` put before the chunks of a result; an error stays as it is.
pub open spec fn prepend(
    front: Seq<ChunkView>,
    r: Result<Seq<ChunkView>, ContainerError>,
) -> Result<Seq<ChunkView>, ContainerError> {
    match r {
        Ok(chunks) => Ok(front + chunks),
        Err(e) => Err(e),
    }
}

/// What reading chunks from `bytes` until they are used up gives. A rest
/// shorter than the twelve bytes that an empty chunk takes is trailing
/// garbage; a longer one has to read as a chunk.
pub open spec fn parse_chunks(bytes: Seq<u8>) -> Result<Seq<ChunkView>, ContainerError>
    decreases bytes.len(),
{
    if bytes.len() == 0 {
        Ok(Seq::empty())
    } else if bytes.len() < 12 {
        Err(ContainerError::Trailing)
    } else {
        match parse_chunk(bytes) {
            Ok(c) => prepend(seq![c], parse_chunks(bytes.skip(c.size() as int))),
            Err(e) => Err(ContainerError::Chunk(e)),
        }
    }
}

/// What reading a container from `bytes` gives. The signature is judged
/// before any chunk is looked at.
pub open spec fn parse_png(bytes: Seq<u8>) -> Result<Seq<ChunkView>, ContainerError> {
    if bytes.len() < 8 || bytes.subrange(0, 8) != signature() {
        Err(ContainerError::BadSignature)
    } else {
        parse_chunks(bytes.skip(8))
    }
}

/// Every chunk of the sequence is well formed.
pub open spec fn all_wf(chunks: Seq<ChunkView>) -> bool {
    forall|i: int| 0 <= i < chunks.len() ==> (#[trigger] chunks[i]).wf()
}

/// The type code of `c`, read as text, is `text`.
pub open spec fn has_type(c: ChunkView, text: Seq<char>) -> bool {
    ascii_text(c.chunk_type) == text
}

/// The index of the first chunk whose type is `text`, if there is one.
pub open spec fn first_of_type(chunks: Seq<ChunkView>, text: Seq<char>) -> Option<int>
    decreases chunks.len(),
{
    if chunks.len() == 0 {
        None
    } else if has_type(chunks[0], text) {
        Some(0)
    } else {
        match first_of_type(chunks.drop_first(), text) {
            Some(i) => Some(i + 1),
            None => None,
        }
    }
}

/// A type code is named by a text exactly when its four letters are the
/// bytes of that text.
pub proof fn lemma_typed(code: Seq<u8>, text: Seq<char>)
    requires
        is_type_code(code),
    ensures
        ascii_text(code) == text <==> code == encode_utf8(text),
{
    lemma_ascii_text(code);
}

/// `first_of_type` gives the least index of a chunk of that type, and
/// nothing exactly when no chunk has it.
pub proof fn lemma_first_of_type(chunks: Seq<ChunkView>, text: Seq<char>)
    ensures
        match first_of_type(chunks, text) {
            Some(i) => {
                &&& 0 <= i < chunks.len()
                &&& has_type(chunks[i], text)
                &&& forall|j: int| 0 <= j < i ==> !has_type(#[trigger] chunks[j], text)
            },
            None => forall|j: int| 0 <= j < chunks.len() ==> !has_type(#[trigger] chunks[j], text),
        },
    decreases chunks.len(),
{
    if chunks.len() > 0 && !has_type(chunks[0], text) {
        let rest = chunks.drop_first();
        lemma_first_of_type(rest, text);
        assert(forall|j: int| 0 < j < chunks.len() ==> chunks[j] == rest[j - 1]);
    }
}

/// Where exactly one chunk has a type, removing the first chunk of that
/// type takes that one out, leaves a list shorter by one, and leaves no
/// chunk of that type to be removed.
pub proof fn lemma_remove_only(chunks: Seq<ChunkView>, text: Seq<char>, i: int)
    requires
        0 <= i < chunks.len(),
        has_type(chunks[i], text),
        forall|j: int| 0 <= j < chunks.len() && j != i ==> !has_type(#[trigger] chunks[j], text),
    ensures
        first_of_type(chunks, text) == Some(i),
        chunks.remove(i).len() == chunks.len() - 1,
        first_of_type(chunks.remove(i), text) is None,
{
    lemma_first_of_type(chunks, text);
    let rest = chunks.remove(i);
    lemma_first_of_type(rest, text);
    if first_of_type(rest, text) is Some {
        let k = first_of_type(rest, text)->Some_0;
        assert(rest[k] == if k < i {
            chunks[k]
        } else {
            chunks[k + 1]
        });
    }
}

/// Encoding a list with one more chunk at its end adds that chunk's bytes
/// at the end.
pub proof fn lemma_encode_push(chunks: Seq<ChunkView>, c: ChunkView)
    ensures
        encode_chunks(chunks.push(c)) == encode_chunks(chunks) + c.to_bytes(),
    decreases chunks.len(),
{
    if chunks.len() == 0 {
        assert(chunks.push(c).drop_first() =~= chunks);
        assert(encode_chunks(chunks.push(c)) =~= encode_chunks(chunks) + c.to_bytes());
    } else {
        lemma_encode_push(chunks.drop_first(), c);
        assert(chunks.push(c).drop_first() =~= chunks.drop_first().push(c));
        assert(encode_chunks(chunks.push(c)) =~= encode_chunks(chunks) + c.to_bytes());
    }
}

/// Encoded chunks read back as the same chunks in the same order.
pub proof fn lemma_chunks_round_trip(chunks: Seq<ChunkView>)
    requires
        all_wf(chunks),
    ensures
        parse_chunks(encode_chunks(chunks)) == Ok::<Seq<ChunkView>, ContainerError>(chunks),
    decreases chunks.len(),
{
    if chunks.len() > 0 {
        let c = chunks[0];
        let rest = chunks.drop_first();
        let bytes = encode_chunks(chunks);
        assert(c.wf());
        assert(all_wf(rest)) by {
            assert(forall|j: int| 0 <= j < rest.len() ==> rest[j] == chunks[j + 1]);
        }
        lemma_parse_encoded(c, encode_chunks(rest));
        lemma_chunks_round_trip(rest);
        assert(bytes.skip(c.size() as int) =~= encode_chunks(rest));
        assert(seq![c] + rest =~= chunks);
    } else {
        assert(chunks =~= Seq::empty());
    }
}

/// An encoded container reads back as the same chunks in the same order.
pub proof fn lemma_png_round_trip(chunks: Seq<ChunkView>)
    requires
        all_wf(chunks),
    ensures
        parse_png(encode_png(chunks)) == Ok::<Seq<ChunkView>, ContainerError>(chunks),
{
    let bytes = encode_png(chunks);
    lemma_chunks_round_trip(chunks);
    assert(bytes.subrange(0, 8) =~= signature());
    assert(bytes.skip(8) =~= encode_chunks(chunks));
}

/// Bytes that read as chunks are the encoding of those chunks.
pub proof fn lemma_parsed_chunks_are_encoded(bytes: Seq<u8>)
    requires
        parse_chunks(bytes) is Ok,
    ensures
        all_wf(parse_chunks(bytes)->Ok_0),
        encode_chunks(parse_chunks(bytes)->Ok_0) == bytes,
    decreases bytes.len(),
{
    if bytes.len() > 0 {
        let c = parse_chunk(bytes)->Ok_0;
        let tail = bytes.skip(c.size() as int);
        lemma_parsed_is_encoded(bytes);
        lemma_parsed_chunks_are_encoded(tail);
        let rest = parse_chunks(tail)->Ok_0;
        let chunks = seq![c] + rest;
        assert(chunks.drop_first() =~= rest);
        assert(encode_chunks(chunks) =~= bytes);
    }
}

/// Bytes that read as a container are the encoding of its chunks: reading
/// and encoding undo each other both ways.
pub proof fn lemma_parsed_png_is_encoded(bytes: Seq<u8>)
    requires
        parse_png(bytes) is Ok,
    ensures
        all_wf(parse_png(bytes)->Ok_0),
        encode_png(parse_png(bytes)->Ok_0) == bytes,
{
    lemma_parsed_chunks_are_encoded(bytes.skip(8));
    assert(encode_png(parse_png(bytes)->Ok_0) =~= bytes);
}

/// Bytes that do not begin with the signature are refused as such,
/// whatever follows.
pub proof fn lemma_bad_signature(bytes: Seq<u8>, i: int)
    requires
        0 <= i < 8,
        i < bytes.len() ==> bytes[i] != signature()[i],
    ensures
        parse_png(bytes) == Err::<Seq<ChunkView>, ContainerError>(ContainerError::BadSignature),
{
    if bytes.len() >= 8 {
        assert(bytes.subrange(0, 8)[i] == bytes[i]);
    }
}

/// A container: its chunks in order. The signature is the same for all
/// and is not stored.
#[derive(Debug)]
pub struct Png {
    chunks: Vec<Chunk>,
}

/// What each chunk of a list is, in the order of the list.
pub open spec fn chunk_views(chunks: Seq<Chunk>) -> Seq<ChunkView> {
    chunks.map_values(|c: Chunk| c@)
}

impl View for Png {
    type V = Seq<ChunkView>;

    closed spec fn view(&self) -> Seq<ChunkView> {
        chunk_views(self.chunks@)
    }
}

/// Whether the type code of `chunk` is the four bytes `code`.
fn has_code(chunk: &Chunk, code: &[u8]) -> (r: bool)
    ensures
        r == (chunk@.chunk_type == code@),
        is_type_code(chunk@.chunk_type),
{
    let own = chunk.chunk_type().bytes();
    if code.len() != 4 {
        return false;
    }
    let r = own[0] == code[0] && own[1] == code[1] && own[2] == code[2] && own[3] == code[3];
    proof {
        if r {
            assert(chunk@.chunk_type =~= code@);
        }
    }
    r
}

impl Png {
    /// A container of the given chunks, in their order.
    pub fn from_chunks(chunks: Vec<Chunk>) -> (r: Png)
        ensures
            r@ == chunk_views(chunks@),
    {
        Png { chunks }
    }

    /// Reads a container: the signature, then chunks until the bytes are
    /// used up.
    pub fn parse(bytes: &[u8]) -> (r: Result<Png, ContainerError>)
        ensures
            match r {
                Ok(png) => {
                    &&& parse_png(bytes@) == Ok::<Seq<ChunkView>, ContainerError>(png@)
                    &&& all_wf(png@)
                    &&& encode_png(png@) == bytes@
                },
                Err(e) => parse_png(bytes@) == Err::<Seq<ChunkView>, ContainerError>(e),
            },
            bytes@.len() < 8 || bytes@.subrange(0, 8) != signature() ==> r matches Err(
                ContainerError::BadSignature,
            ),
    {
        proof {
            if parse_png(bytes@) is Ok {
                lemma_parsed_png_is_encoded(bytes@);
            }
        }
        if bytes.len() < 8 {
            return Err(ContainerError::BadSignature);
        }
        let mut k: usize = 0;
        while k < 8
            invariant
                k <= 8 <= bytes@.len(),
                forall|j: int| 0 <= j < k ==> bytes@[j] == signature()[j],
            decreases 8 - k,
        {
            if bytes[k] != STANDARD_HEADER[k] {
                proof {
                    lemma_bad_signature(bytes@, k as int);
                }
                return Err(ContainerError::BadSignature);
            }
            k += 1;
        }
        assert(bytes@.subrange(0, 8) =~= signature());
        let ghost body = bytes@.skip(8);
        let mut chunks: Vec<Chunk> = Vec::new();
        let mut pos: usize = 8;
        assert(bytes@.skip(8).skip(0) =~= body);
        while pos < bytes.len()
            invariant
                8 <= pos <= bytes@.len(),
                body == bytes@.skip(8),
                parse_png(bytes@) == parse_chunks(body),
                parse_chunks(body) == prepend(
                    chunk_views(chunks@),
                    parse_chunks(bytes@.skip(pos as int)),
                ),
                all_wf(chunk_views(chunks@)),
            decreases bytes@.len() - pos,
        {
            let ghost rest = bytes@.skip(pos as int);
            let ghost front = chunk_views(chunks@);
            if bytes.len() - pos < 12 {
                return Err(ContainerError::Trailing);
            }
            let tail = slice_subrange(bytes, pos, bytes.len());
            assert(tail@ =~= rest);
            match Chunk::parse(tail) {
                Ok(c) => {
                    proof {
                        assert(rest.skip(c@.size() as int) =~= bytes@.skip(pos + c@.size()));
                        assert(front.push(c@) =~= front + seq![c@]);
                        assert(chunk_views(chunks@.push(c)) =~= front.push(c@));
                        let after = parse_chunks(bytes@.skip(pos + c@.size()));
                        assert(prepend(front, prepend(seq![c@], after)) == prepend(
                            front.push(c@),
                            after,
                        )) by {
                            if after is Ok {
                                assert(front + (seq![c@] + after->Ok_0) =~= front.push(c@)
                                    + after->Ok_0);
                            }
                        }
                    }
                    pos = pos + 12 + c.length() as usize;
                    chunks.push(c);
                },
                Err(e) => {
                    return Err(ContainerError::Chunk(e));
                },
            }
        }
        assert(bytes@.skip(pos as int) =~= Seq::<u8>::empty());
        assert(chunk_views(chunks@) + Seq::<ChunkView>::empty()
            =~= chunk_views(chunks@));
        Ok(Png { chunks })
    }

    /// Puts `chunk` behind the last chunk.
    pub fn append_chunk(&mut self, chunk: Chunk)
        ensures
            final(self)@ == old(self)@.push(chunk@),
    {
        self.chunks.push(chunk);
        assert(self@ =~= old(self)@.push(chunk@));
    }

    fn position(&self, chunk_type: &str) -> (r: Option<usize>)
        ensures
            match r {
                Some(i) => first_of_type(self@, chunk_type@) == Some(i as int) && i
                    < self.chunks@.len(),
                None => first_of_type(self@, chunk_type@) is None,
            },
    {
        let code = chunk_type.as_bytes();
        let mut i: usize = 0;
        while i < self.chunks.len()
            invariant
                i <= self.chunks@.len(),
                code@ == chunk_type.spec_bytes(),
                forall|j: int| 0 <= j < i ==> !has_type(#[trigger] self@[j], chunk_type@),
            decreases self.chunks@.len() - i,
        {
            let c = &self.chunks[i];
            let hit = has_code(c, code);
            proof {
                lemma_typed(self@[i as int].chunk_type, chunk_type@);
                lemma_first_of_type(self@, chunk_type@);
            }
            if hit {
                return Some(i);
            }
            i += 1;
        }
        proof {
            lemma_first_of_type(self@, chunk_type@);
        }
        None
    }

    /// The first chunk of the given type, if the container has one.
    pub fn chunk_by_type(&self, chunk_type: &str) -> (r: Option<&Chunk>)
        ensures
            match first_of_type(self@, chunk_type@) {
                Some(i) => r is Some && r->Some_0@ == self@[i],
                None => r is None,
            },
    {
        match self.position(chunk_type) {
            Some(i) => Some(&self.chunks[i]),
            None => None,
        }
    }

    /// Takes the first chunk of the given type out of the container and
    /// hands it over. The other chunks keep their order.
    pub fn remove_chunk(&mut self, chunk_type: &str) -> (r: Result<Chunk, ContainerError>)
        ensures
            match first_of_type(old(self)@, chunk_type@) {
                Some(i) => r is Ok && r->Ok_0@ == old(self)@[i] && final(self)@ == old(self)@.remove(
                    i,
                ),
                None => r matches Err(ContainerError::NotFound) && final(self)@ == old(self)@,
            },
    {
        match self.position(chunk_type) {
            Some(i) => {
                let c = self.chunks.remove(i);
                assert(self@ =~= old(self)@.remove(i as int));
                Ok(c)
            },
            None => Err(ContainerError::NotFound),
        }
    }

    /// The chunks in their order.
    pub fn chunks(&self) -> (r: &[Chunk])
        ensures
            chunk_views(r@) == self@,
    {
        self.chunks.as_slice()
    }

    /// The encoded container: the signature, then each chunk's bytes in
    /// order. `parse` reads these bytes back as the same chunks.
    pub fn as_bytes(&self) -> (r: Vec<u8>)
        ensures
            r@ == encode_png(self@),
            all_wf(self@),
            parse_png(r@) == Ok::<Seq<ChunkView>, ContainerError>(self@),
    {
        let mut out: Vec<u8> = Vec::new();
        out.extend_from_slice(STANDARD_HEADER.as_slice());
        assert(out@ =~= signature() + encode_chunks(self@.take(0)));
        let mut i: usize = 0;
        while i < self.chunks.len()
            invariant
                i <= self.chunks@.len(),
                out@ == signature() + encode_chunks(self@.take(i as int)),
                all_wf(self@.take(i as int)),
            decreases self.chunks@.len() - i,
        {
            let encoded = self.chunks[i].as_bytes();
            proof {
                let done = self@.take(i as int);
                lemma_encode_push(done, self@[i as int]);
                assert(self@.take(i + 1) =~= done.push(self@[i as int]));
            }
            out.extend_from_slice(encoded.as_slice());
            assert(out@ =~= signature() + encode_chunks(self@.take(i + 1)));
            i += 1;
        }
        proof {
            assert(self@.take(i as int) =~= self@);
            lemma_png_round_trip(self@);
        }
        out
    }
}

} // verus!
