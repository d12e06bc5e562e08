use vstd::prelude::*;

use rand::rngs::StdRng;
use rand::seq::SliceRandom;
use rand::{RngExt, SeedableRng};

verus! {

/// The seeded generator behind asteroid colours and mineral picks.
#[verifier::external_type_specification]
#[verifier::external_body]
pub struct ExStdRng(StdRng);

/// `StdRng::seed_from_u64`: a generator whose stream depends on `seed` only.
/// Nothing about the stream is stated here.
#[verifier::external_body]
pub(crate) fn seeded_rng(seed: u64) -> StdRng {
    StdRng::seed_from_u64(seed)
}

/// `RngExt::random_range` on the inclusive range `lo..=hi`: a value inside
/// the range. Which value is drawn is not stated.
#[verifier::external_body]
pub(crate) fn random_in_range(rng: &mut StdRng, lo: u32, hi: u32) -> (r: u32)
    requires
        lo <= hi,
    ensures
        lo <= r <= hi,
{
    rng.random_range(lo..=hi)
}

/// `SliceRandom::partial_shuffle` on the whole vector: the elements are only
/// swapped among themselves, so the vector keeps the same multiset of
/// points. Which positions they end up in is not stated.
#[verifier::external_body]
pub(crate) fn partial_shuffle_points(points: &mut Vec<[u32; 3]>, rng: &mut StdRng, amount: usize)
    ensures
        final(points)@.to_multiset() == old(points)@.to_multiset(),
        final(points)@.len() == old(points)@.len(),
{
    let _ = points.partial_shuffle(rng, amount);
}

} // verus!
