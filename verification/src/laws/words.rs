//! Facts about machine words that the laws share.

use vstd::prelude::*;

verus! {

/// A word read as a signed number and back is the same word; and so the other way round.
pub(crate) proof fn lemma_signed_and_back(p: u64, n: i64)
    ensures
        (p as i64) as u64 == p,
        (n as u64) as i64 == n,
        n >= 0 ==> n as u64 == n,
{
    assert((p as i64) as u64 == p && (n as u64) as i64 == n && (n >= 0 ==> n as u64 == n)) by (bit_vector);
}

/// The lowest bit, and the ninth, by their masks.
pub(crate) proof fn lemma_masked_bits(b: u64)
    ensures
        (b & 1u64 != 0) == ((b >> 0u64) & 1u64 == 1u64),
        (b & 0x100u64 != 0) == ((b >> 8u64) & 1u64 == 1u64),
        0u64 & 1u64 == 0,
        1u64 & 1u64 != 0,
{
    assert((b & 1u64 != 0) == ((b >> 0u64) & 1u64 == 1u64) && (b & 0x100u64 != 0) == ((b >> 8u64) & 1u64 == 1u64)
        && 0u64 & 1u64 == 0 && 1u64 & 1u64 != 0) by (bit_vector);
}

} // verus!
