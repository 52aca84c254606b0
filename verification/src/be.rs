//! Big-endian encoding of 32-bit numbers.

use vstd::prelude::*;

verus! {

/// The number that four bytes spell, most significant byte first.
#[verifier::opaque]
pub open spec fn be_value(bytes: Seq<u8>) -> nat
    recommends
        bytes.len() == 4,
{
    (bytes[0] * 0x100_0000 + bytes[1] * 0x1_0000 + bytes[2] * 0x100 + bytes[3]) as nat
}

/// The four bytes that spell `x`, most significant byte first.
#[verifier::opaque]
pub open spec fn be_bytes(x: u32) -> Seq<u8> {
    seq![
        (x / 0x100_0000) as u8,
        (x / 0x1_0000 % 0x100) as u8,
        (x / 0x100 % 0x100) as u8,
        (x % 0x100) as u8,
    ]
}

/// Four bytes always spell a number that fits in 32 bits.
pub proof fn lemma_be_value_bound(bytes: Seq<u8>)
    requires
        bytes.len() == 4,
    ensures
        be_value(bytes) <= u32::MAX,
{
    reveal(be_value);
}

/// Decoding undoes encoding.
pub proof fn lemma_be_value_of_bytes(x: u32)
    ensures
        be_bytes(x).len() == 4,
        be_value(be_bytes(x)) == x,
{
    reveal(be_value);
    reveal(be_bytes);
    let b0 = x / 0x100_0000;
    let b1 = x / 0x1_0000 % 0x100;
    let b2 = x / 0x100 % 0x100;
    let b3 = x % 0x100;
    assert(x == (x / 0x100) * 0x100 + b3);
    assert(x / 0x100 == (x / 0x1_0000) * 0x100 + b2);
    assert(x / 0x1_0000 == b0 * 0x100 + b1);
}

/// Encoding undoes decoding.
pub proof fn lemma_be_bytes_of_value(bytes: Seq<u8>)
    requires
        bytes.len() == 4,
    ensures
        be_bytes(be_value(bytes) as u32) == bytes,
{
    reveal(be_value);
    reveal(be_bytes);
    let b0 = bytes[0] as int;
    let b1 = bytes[1] as int;
    let b2 = bytes[2] as int;
    let b3 = bytes[3] as int;
    let x = be_value(bytes) as int;
    assert(x / 0x100_0000 == b0) by {
        assert(x == b0 * 0x100_0000 + (b1 * 0x1_0000 + b2 * 0x100 + b3));
    }
    assert(x / 0x1_0000 == b0 * 0x100 + b1) by {
        assert(x == (b0 * 0x100 + b1) * 0x1_0000 + (b2 * 0x100 + b3));
    }
    assert(x / 0x100 == b0 * 0x1_0000 + b1 * 0x100 + b2) by {
        assert(x == (b0 * 0x1_0000 + b1 * 0x100 + b2) * 0x100 + b3);
    }
    assert(x % 0x100 == b3) by {
        assert(x == (b0 * 0x1_0000 + b1 * 0x100 + b2) * 0x100 + b3);
    }
    assert((b0 * 0x100 + b1) % 0x100 == b1);
    assert((b0 * 0x1_0000 + b1 * 0x100 + b2) % 0x100 == b2) by {
        assert(b0 * 0x1_0000 + b1 * 0x100 + b2 == (b0 * 0x100 + b1) * 0x100 + b2);
    }
    assert(be_bytes(x as u32) =~= bytes);
}

/// `a` comes before `b` byte by byte: they agree up to some place, and
/// there `a` holds the smaller byte.
pub open spec fn bytes_before(a: Seq<u8>, b: Seq<u8>) -> bool {
    exists|i: int|
        0 <= i < a.len() && i < b.len() && #[trigger] a[i] < b[i] && a.subrange(0, i)
            == b.subrange(0, i)
}

/// Four bytes come before four others exactly when they spell the smaller
/// number, and spell the same number only when they are the same bytes.
pub proof fn lemma_be_order(a: Seq<u8>, b: Seq<u8>)
    requires
        a.len() == 4,
        b.len() == 4,
    ensures
        be_value(a) < be_value(b) <==> bytes_before(a, b),
        be_value(a) == be_value(b) <==> a == b,
{
    reveal(be_value);
    if a[0] != b[0] {
        lemma_first_difference(a, b, 0);
    } else if a[1] != b[1] {
        lemma_first_difference(a, b, 1);
    } else if a[2] != b[2] {
        lemma_first_difference(a, b, 2);
    } else if a[3] != b[3] {
        lemma_first_difference(a, b, 3);
    } else {
        assert(a =~= b);
        assert(!bytes_before(a, b));
    }
}

/// The first place at which two sequences differ decides which of them
/// comes before the other.
pub proof fn lemma_first_difference(a: Seq<u8>, b: Seq<u8>, i: int)
    requires
        0 <= i < a.len(),
        i < b.len(),
        a[i] != b[i],
        forall|j: int| 0 <= j < i ==> a[j] == b[j],
    ensures
        a != b,
        bytes_before(a, b) <==> a[i] < b[i],
{
    if a[i] < b[i] {
        assert(a.subrange(0, i) =~= b.subrange(0, i));
    } else {
        assert forall|k: int|
            0 <= k < a.len() && k < b.len() && #[trigger] a[k] < b[k] implies a.subrange(0, k)
            != b.subrange(0, k) by {
            if k > i {
                assert(a.subrange(0, k)[i] == a[i]);
                assert(b.subrange(0, k)[i] == b[i]);
            }
        }
    }
}

/// Reads a 32-bit number from four bytes, most significant byte first.
pub fn u32_from_be(bytes: [u8; 4]) -> (x: u32)
    ensures
        x == be_value(bytes@),
{
    let b0: u32 = bytes[0] as u32;
    let b1: u32 = bytes[1] as u32;
    let b2: u32 = bytes[2] as u32;
    let b3: u32 = bytes[3] as u32;
    proof {
        reveal(be_value);
    }
    b0 * 0x100_0000 + b1 * 0x1_0000 + b2 * 0x100 + b3
}

/// Writes a 32-bit number as four bytes, most significant byte first.
pub fn u32_to_be(x: u32) -> (bytes: [u8; 4])
    ensures
        bytes@ == be_bytes(x),
{
    let bytes: [u8; 4] = [
        (x / 0x100_0000) as u8,
        (x / 0x1_0000 % 0x100) as u8,
        (x / 0x100 % 0x100) as u8,
        (x % 0x100) as u8,
    ];
    proof {
        reveal(be_bytes);
    }
    assert(bytes@ =~= be_bytes(x));
    bytes
}

} // verus!
