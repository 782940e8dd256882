use crate::game::board::Position;
use rand::seq::SliceRandom;
use rand::Rng;
use vstd::prelude::*;

verus! {

/// Puts the positions of `v` in a random order (`rand::seq::SliceRandom::shuffle` with the
/// thread-local generator). Claimed: the result is a permutation of `v`; which one is chance.
#[verifier::external_body]
pub(crate) fn shuffle_positions(v: &mut Vec<Position>)
    ensures
        final(v)@.to_multiset() == old(v)@.to_multiset(),
{
    v.shuffle(&mut rand::rng());
}

/// A random number in `lo ..= hi` (`rand::Rng::random_range` with the thread-local
/// generator). Claimed: the result lies in the range; which number is chance.
#[verifier::external_body]
pub(crate) fn random_range_inclusive(lo: usize, hi: usize) -> (res: usize)
    requires
        lo <= hi,
    ensures
        lo <= res <= hi,
{
    rand::rng().random_range(lo..=hi)
}

} // verus!
