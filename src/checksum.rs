//! CRC-32 checksums, computed by the `crc32fast` crate.

use vstd::prelude::*;

verus! {

/// The CRC-32 (IEEE) checksum of a byte sequence.
pub uninterp spec fn crc32_of(data: Seq<u8>) -> u32;

/// Relies on `crc32fast::hash`: the CRC-32 of the bytes, which depends on the
/// bytes alone.
#[verifier::external_body]
pub(crate) fn crc32(data: &[u8]) -> (r: u32)
    ensures
        r == crc32_of(data@),
{
    crc32fast::hash(data)
}

/// The running CRC-32 state of `crc32fast`.
#[verifier::external_type_specification]
#[verifier::external_body]
pub struct ExHasher(crc32fast::Hasher);

/// The checksum state that a `crc32fast::Hasher` holds: the value its
/// `finalize` would return. It depends on the hasher's value alone.
pub uninterp spec fn crc_running(h: crc32fast::Hasher) -> u32;

/// The CRC-32 state after feeding `data` to a running checksum in state `state`.
pub uninterp spec fn crc32_extend(state: u32, data: Seq<u8>) -> u32;

/// Relies on `crc32fast::Hasher::update`: the new checksum state depends on the
/// old state and the bytes fed, and nothing else.
pub assume_specification[ crc32fast::Hasher::update ](h: &mut crc32fast::Hasher, buf: &[u8])
    ensures
        crc_running(*final(h)) == crc32_extend(crc_running(*old(h)), buf@),
;

} // verus!
