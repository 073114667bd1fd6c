//! CRC32 checksums used for the optional header checksum and for the
//! write-ahead-log segment records.

use vstd::prelude::*;

verus! {

/// The CRC32 (IEEE) checksum of a byte sequence. The checksum depends on
/// the bytes alone; what it is on given bytes is left to the checksum
/// routine that computes it.
pub uninterp spec fn crc32_of(data: Seq<u8>) -> u32;

/// Relies on crc32fast::hash: the CRC32 (IEEE) checksum of the bytes,
/// a pure function of its input.
#[verifier::external_body]
pub fn crc32(data: &[u8]) -> (r: u32)
    ensures
        r == crc32_of(data@),
{
    crc32fast::hash(data)
}

} // verus!
