//! Entropy extension: turning seed bytes into a bounded pseudo-random draw.
//!
//! The hashing and the number stream are those of `sp_runtime`; nothing about
//! them is proved here. The two functions below state what the rest of the
//! library relies on.

use sp_runtime::traits::BlakeTwo256;
use sp_runtime::RandomNumberGenerator;
use vstd::prelude::*;

verus! {

/// The 32-byte Blake2 digest of `data`, as `sp_runtime::traits::BlakeTwo256` computes it.
pub uninterp spec fn blake2_256_digest(data: Seq<u8>) -> Seq<u8>;

/// The first number that a `sp_runtime::RandomNumberGenerator` over `BlakeTwo256`,
/// started from `seed`, picks for the inclusive upper bound `max`.
pub uninterp spec fn first_pick(seed: Seq<u8>, max: u32) -> u32;

/// Calls `BlakeTwo256::hash` on `data`. The digest depends on the bytes alone.
#[verifier::external_body]
pub(crate) fn blake2_256(data: &[u8]) -> (digest: [u8; 32])
    ensures
        digest@ == blake2_256_digest(data@),
{
    <BlakeTwo256 as sp_runtime::traits::Hash>::hash(data).into()
}

/// Seeds a fresh `RandomNumberGenerator<BlakeTwo256>` with `seed` and calls
/// `pick_u32(max)` once. The generator documents its result as at least zero
/// and at most `max`, and derives it from the seed and `max` alone. It adds
/// one to `max`, so the largest `u32` is left out. It redraws while a draw
/// falls into the biased tail of its range; that this ends is taken on trust.
#[verifier::external_body]
pub(crate) fn first_pick_u32(seed: [u8; 32], max: u32) -> (n: u32)
    requires
        max < u32::MAX,
    ensures
        n == first_pick(seed@, max),
        n <= max,
{
    let mut rng = <RandomNumberGenerator<BlakeTwo256>>::new(seed.into());
    rng.pick_u32(max)
}

} // verus!
