//! Item hashing: one 128-bit murmur3 digest per item, from which every
//! probe position is derived.

use vstd::prelude::*;
use fasthash::FastHash;

verus! {

/// The murmur3 x64 128-bit digest (seed zero) of a byte sequence: a pure
/// function of the bytes alone.
pub uninterp spec fn murmur3_of(data: Seq<u8>) -> u128;

/// Relies on `fasthash::murmur3::Hash128_x64::hash`: the murmur3 x64
/// 128-bit digest of the bytes with the default zero seed, depending on the
/// bytes alone.  The binding hands the length to C as a 32-bit signed
/// integer, so longer inputs are left out.
#[verifier::external_body]
pub(crate) fn murmur3_128(data: &[u8]) -> (r: u128)
    requires
        data@.len() <= 0x7FFF_FFFF,
    ensures
        r == murmur3_of(data@),
{
    fasthash::murmur3::Hash128_x64::hash(data)
}

} // verus!
