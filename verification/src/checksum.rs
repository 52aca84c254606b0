//! The checksum of the container format: CRC-32 with the ISO-HDLC
//! parameters.

use vstd::prelude::*;

verus! {

/// The CRC-32 (ISO-HDLC) of `bytes`. Nothing is stated of its values: it
/// stands for what the `crc` crate computes.
pub uninterp spec fn crc32(bytes: Seq<u8>) -> u32;

/// Calls `Crc::<u32>::checksum` of the `crc` crate on a `Crc` made for
/// `CRC_32_ISO_HDLC`. The result depends on the bytes alone, and `crc32` is
/// its name; this is believed, not proved.
#[verifier::external_body]
pub(crate) fn checksum(bytes: &[u8]) -> (sum: u32)
    ensures
        sum == crc32(bytes@),
{
    crc::Crc::<u32>::new(&crc::CRC_32_ISO_HDLC).checksum(bytes)
}

} // verus!
