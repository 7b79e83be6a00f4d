//! The CRC-32 that guards every PNG chunk.

use vstd::prelude::*;

verus! {

/// The CRC-32/ISO-HDLC checksum of a byte string.
pub uninterp spec fn spec_crc32(bytes: Seq<u8>) -> u32;

/// Calls `crc::Crc::<u32>::checksum` on an instance made by
/// `crc::Crc::<u32>::new(&crc::CRC_32_ISO_HDLC)`. The checksum is a function
/// of the bytes alone; the contract gives that function its name and claims
/// nothing else of it.
#[verifier::external_body]
pub(crate) fn crc32(bytes: &[u8]) -> (sum: u32)
    ensures
        sum == spec_crc32(bytes@),
{
    crc::Crc::<u32>::new(&crc::CRC_32_ISO_HDLC).checksum(bytes)
}

} // verus!
