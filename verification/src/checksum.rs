//! CRC-32 of a byte string, computed by the `crc32fast` crate.

use vstd::prelude::*;

verus! {

/// The CRC-32 (IEEE) checksum of `bytes`, as `crc32fast::hash` computes it.
/// Nothing else is assumed about its value.
pub uninterp spec fn crc32_of(bytes: Seq<u8>) -> u32;

/// Calls `crc32fast::hash`. That function feeds the whole slice to a fresh
/// hasher and returns its final state, so the result depends on the bytes
/// alone; the contract gives that result its name.
#[verifier::external_body]
pub(crate) fn crc32(bytes: &[u8]) -> (sum: u32)
    ensures
        sum == crc32_of(bytes@),
{
    crc32fast::hash(bytes)
}

} // verus!
