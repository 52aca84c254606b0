//! Four-byte chunk type codes and the properties encoded in their letter case.

use crate::be::{bytes_before, lemma_be_order, u32_from_be};
use crate::text::{ascii_text, lemma_ascii_text};
use std::cmp::Ordering;
use vstd::prelude::*;
use vstd::slice::slice_to_vec;
use vstd::string::StringSliceAdditionalSpecFns;

verus! {

/// Why a chunk type code could not be built.
#[derive(Debug, Clone, Copy, PartialEq, Eq, Structural)]
pub enum TypeError {
    /// Some byte is not an ASCII letter.
    NonAlphabetic,
    /// The text is not exactly four bytes long.
    WrongLength,
}

/// `b` is one of `A`-`Z`.
pub open spec fn is_upper(b: u8) -> bool {
    0x41 <= b <= 0x5a
}

/// `b` is one of `a`-`z`.
pub open spec fn is_lower(b: u8) -> bool {
    0x61 <= b <= 0x7a
}

/// `b` is an ASCII letter.
pub open spec fn is_letter(b: u8) -> bool {
    is_upper(b) || is_lower(b)
}

/// `bytes` is four ASCII letters.
pub open spec fn is_type_code(bytes: Seq<u8>) -> bool {
    &&& bytes.len() == 4
    &&& forall|i: int| 0 <= i < 4 ==> is_letter(#[trigger] bytes[i])
}

/// What reading `bytes` as a type code gives: the bytes themselves when
/// they are four letters. The length is judged first.
pub open spec fn parse_type(bytes: Seq<u8>) -> Result<Seq<u8>, TypeError> {
    if bytes.len() != 4 {
        Err(TypeError::WrongLength)
    } else if !is_type_code(bytes) {
        Err(TypeError::NonAlphabetic)
    } else {
        Ok(bytes)
    }
}

/// How two byte sequences of one length compare byte by byte.
pub open spec fn bytes_order(a: Seq<u8>, b: Seq<u8>) -> Ordering {
    if a == b {
        Ordering::Equal
    } else if bytes_before(a, b) {
        Ordering::Less
    } else {
        Ordering::Greater
    }
}

/// In a letter, bit 5 tells the case: it is clear in `A`-`Z` and set in
/// `a`-`z`.
pub proof fn lemma_case_bit(b: u8)
    requires
        is_letter(b),
    ensures
        is_upper(b) <==> b & 0x20 == 0,
        is_lower(b) <==> b & 0x20 != 0,
{
    assert((0x41 <= b <= 0x5a) ==> b & 0x20 == 0) by (bit_vector);
    assert((0x61 <= b <= 0x7a) ==> b & 0x20 != 0) by (bit_vector);
}

fn letter(b: u8) -> (r: bool)
    ensures
        r == is_letter(b),
{
    (0x41 <= b && b <= 0x5a) || (0x61 <= b && b <= 0x7a)
}

/// A chunk type code: four ASCII letters.
#[derive(Debug, Clone, Copy, Ord)]
pub struct ChunkType {
    bytes: [u8; 4],
}

impl View for ChunkType {
    type V = Seq<u8>;

    closed spec fn view(&self) -> Seq<u8> {
        self.bytes@
    }
}

impl PartialEq for ChunkType {
    fn eq(&self, other: &Self) -> (r: bool) {
        let r = self.bytes[0] == other.bytes[0] && self.bytes[1] == other.bytes[1] && self.bytes[2]
            == other.bytes[2] && self.bytes[3] == other.bytes[3];
        proof {
            if r {
                assert(self@ =~= other@);
            }
        }
        r
    }
}

impl Eq for ChunkType {

}

/// Two type codes are equal when their four bytes are.
impl vstd::std_specs::cmp::PartialEqSpecImpl for ChunkType {
    open spec fn obeys_eq_spec() -> bool {
        true
    }

    open spec fn eq_spec(&self, other: &Self) -> bool {
        self@ == other@
    }
}

impl PartialOrd for ChunkType {
    fn partial_cmp(&self, other: &Self) -> (r: Option<Ordering>) {
        proof {
            lemma_be_order(self@, other@);
        }
        let mine = u32_from_be(self.bytes);
        let theirs = u32_from_be(other.bytes);
        if mine < theirs {
            Some(Ordering::Less)
        } else if mine == theirs {
            Some(Ordering::Equal)
        } else {
            Some(Ordering::Greater)
        }
    }
}

/// Type codes are ordered byte by byte, the first byte counting most.
impl vstd::std_specs::cmp::PartialOrdSpecImpl for ChunkType {
    open spec fn obeys_partial_cmp_spec() -> bool {
        true
    }

    open spec fn partial_cmp_spec(&self, other: &Self) -> Option<Ordering> {
        Some(bytes_order(self@, other@))
    }
}

impl ChunkType {
    /// Every value of the type holds four ASCII letters.
    #[verifier::type_invariant]
    pub open spec fn well_formed(self) -> bool {
        is_type_code(self@)
    }

    /// The code as text: one character per byte.
    pub open spec fn text(self) -> Seq<char> {
        ascii_text(self@)
    }

    /// Builds a type code from four bytes, all of which must be ASCII
    /// letters. Letter case is not judged here: a code with a lower-case
    /// third byte is built, and `is_valid` answers `false` for it.
    pub fn from_bytes(bytes: [u8; 4]) -> (r: Result<ChunkType, TypeError>)
        ensures
            match r {
                Ok(t) => is_type_code(bytes@) && t@ == bytes@,
                Err(e) => !is_type_code(bytes@) && e == TypeError::NonAlphabetic,
            },
    {
        if letter(bytes[0]) && letter(bytes[1]) && letter(bytes[2]) && letter(bytes[3]) {
            Ok(ChunkType { bytes })
        } else {
            Err(TypeError::NonAlphabetic)
        }
    }

    /// Builds a type code from text of exactly four bytes, all of them
    /// ASCII letters. The length is counted in bytes of the UTF-8 encoding.
    pub fn from_text(s: &str) -> (r: Result<ChunkType, TypeError>)
        ensures
            match r {
                Ok(t) => parse_type(s.spec_bytes()) == Ok::<Seq<u8>, TypeError>(t@) && t.text()
                    == s@,
                Err(e) => parse_type(s.spec_bytes()) == Err::<Seq<u8>, TypeError>(e),
            },
    {
        let b = s.as_bytes();
        if b.len() != 4 {
            return Err(TypeError::WrongLength);
        }
        let bytes: [u8; 4] = [b[0], b[1], b[2], b[3]];
        assert(bytes@ =~= b@);
        let r = ChunkType::from_bytes(bytes);
        proof {
            if r is Ok {
                lemma_ascii_text(b@);
            }
        }
        r
    }

    /// The four raw bytes of the code.
    pub fn bytes(&self) -> (r: [u8; 4])
        ensures
            r@ == self@,
            is_type_code(self@),
    {
        proof {
            use_type_invariant(self);
        }
        self.bytes
    }

    /// The code as a string of four letters.
    pub fn to_text(&self) -> (r: String)
        ensures
            r@ == self.text(),
    {
        proof {
            use_type_invariant(self);
            lemma_ascii_text(self@);
        }
        let v = slice_to_vec(self.bytes.as_slice());
        match String::from_utf8(v) {
            Ok(s) => s,
            Err(_) => unreached(),
        }
    }

    /// The first byte is upper case: the chunk is critical, not ancillary.
    pub fn is_critical(&self) -> (r: bool)
        ensures
            r == is_upper(self@[0]),
            !r == is_lower(self@[0]),
    {
        proof {
            use_type_invariant(self);
            lemma_case_bit(self.bytes[0]);
        }
        self.bytes[0] & 0x20 == 0
    }

    /// The second byte is upper case: the chunk is public, not private.
    pub fn is_public(&self) -> (r: bool)
        ensures
            r == is_upper(self@[1]),
            !r == is_lower(self@[1]),
    {
        proof {
            use_type_invariant(self);
            lemma_case_bit(self.bytes[1]);
        }
        self.bytes[1] & 0x20 == 0
    }

    /// The third byte is upper case, as the format reserves it to be.
    pub fn is_reserved_bit_valid(&self) -> (r: bool)
        ensures
            r == is_upper(self@[2]),
            !r == is_lower(self@[2]),
    {
        proof {
            use_type_invariant(self);
            lemma_case_bit(self.bytes[2]);
        }
        self.bytes[2] & 0x20 == 0
    }

    /// The fourth byte is lower case: the chunk may be copied by a program
    /// that does not know it.
    pub fn is_safe_to_copy(&self) -> (r: bool)
        ensures
            r == is_lower(self@[3]),
            !r == is_upper(self@[3]),
    {
        proof {
            use_type_invariant(self);
            lemma_case_bit(self.bytes[3]);
        }
        self.bytes[3] & 0x20 != 0
    }

    /// The code is four letters with the third in upper case.
    pub fn is_valid(&self) -> (r: bool)
        ensures
            r == (is_type_code(self@) && is_upper(self@[2])),
    {
        proof {
            use_type_invariant(self);
        }
        self.is_reserved_bit_valid()
    }
}

} // verus!
