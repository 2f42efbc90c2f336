use vstd::prelude::*;

use rand::rngs::StdRng;
use rand::seq::SliceRandom;
use rand::{Rng, RngCore, SeedableRng};

use crate::cards::Card;

verus! {

#[verifier::external_type_specification]
#[verifier::external_body]
pub struct ExStdRng(rand::rngs::StdRng);

/// Relies on rand's `SliceRandom::shuffle` for slices: Fisher-Yates swaps,
/// so the result is a permutation of the input.
#[verifier::external_body]
pub(crate) fn shuffle_cards(cards: &mut Vec<Card>, rng: &mut StdRng)
    ensures
        final(cards)@.to_multiset() == old(cards)@.to_multiset(),
{
    cards.as_mut_slice().shuffle(rng);
}

/// Relies on rand's `Rng::gen_range` on `0..n`: a value below `n` (it panics
/// only on an empty range, which `requires` leaves out).
#[verifier::external_body]
pub(crate) fn random_below(rng: &mut StdRng, n: u32) -> (r: u32)
    requires
        n > 0,
    ensures
        r < n,
{
    rng.gen_range(0..n)
}

/// Relies on rand's `SeedableRng::seed_from_u64` for `StdRng`.
#[verifier::external_body]
pub(crate) fn seeded_rng(seed: u64) -> StdRng {
    StdRng::seed_from_u64(seed)
}

/// Relies on rand's `thread_rng` and `RngCore::next_u64`: any value.
#[verifier::external_body]
pub(crate) fn random_seed() -> u64 {
    rand::thread_rng().next_u64()
}

/// Relies on `Clone` for rand's `StdRng`: a generator in the same state.
#[verifier::external_body]
pub(crate) fn clone_rng(rng: &StdRng) -> StdRng {
    rng.clone()
}

} // verus!
