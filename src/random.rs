//! Randomness for the puzzle's layout and noise. Nothing is known of a drawn
//! value but its range.
use vstd::prelude::*;

verus! {

/// Relies on rand's `Rng::random_range` on the thread-local generator
/// (`rand::rng()`) over `lo..=hi`: a uniform value in that range. It panics
/// on an empty range, which `lo <= hi` rules out.
#[verifier::external_body]
pub(crate) fn random_in(lo: u32, hi: u32) -> (r: u32)
    requires
        lo <= hi,
    ensures
        lo <= r <= hi,
{
    rand::Rng::random_range(&mut rand::rng(), lo..=hi)
}

/// Relies on rand's `SliceRandom::shuffle` on the thread-local generator:
/// the elements are swapped into a uniformly random order; none is added or
/// lost.
#[verifier::external_body]
pub(crate) fn shuffle<T>(v: &mut Vec<T>)
    ensures
        final(v)@.len() == old(v)@.len(),
        final(v)@.to_multiset() == old(v)@.to_multiset(),
{
    rand::seq::SliceRandom::shuffle(v.as_mut_slice(), &mut rand::rng())
}

} // verus!
