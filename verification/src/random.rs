//! The random choices the playlist makes, behind trusted wrappers over `rand`.

use rand::rngs::StdRng;
use rand::seq::SliceRandom;
use rand::RngExt;
use vstd::prelude::*;

verus! {

#[verifier::external_type_specification]
#[verifier::external_body]
pub struct ExStdRng(StdRng);

/// Trusted wrapper over `<[usize] as SliceRandom>::shuffle` (an in-place
/// Fisher-Yates shuffle built from swaps). What comes out is a rearrangement
/// of what went in: same length, same elements with the same multiplicities.
/// Which rearrangement depends on the generator's state.
#[verifier::external_body]
pub(crate) fn shuffle_in_place(v: &mut Vec<usize>, rng: &mut StdRng)
    ensures
        final(v)@.len() == old(v)@.len(),
        final(v)@.to_multiset() == old(v)@.to_multiset(),
{
    v.shuffle(rng)
}

/// Trusted wrapper over `RngExt::random_range` on the inclusive range
/// `0..=hi`, which is never empty: the result lies in that range. Which value
/// comes out depends on the generator's state.
#[verifier::external_body]
pub(crate) fn random_up_to(rng: &mut StdRng, hi: usize) -> (r: usize)
    ensures
        r <= hi,
{
    rng.random_range(0..=hi)
}

} // verus!
