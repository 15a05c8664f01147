//! Trusted boundary to the `rand` crate.
//!
//! The session threads a single evolving seed through every draw; the
//! wrappers here are the only places randomness enters the library, and the
//! simulation is verified for every value they may return.

use vstd::prelude::*;

verus! {

#[verifier::external_type_specification]
#[verifier::external_body]
pub struct ExSmallRng(rand::rngs::SmallRng);

/// Relies on rand's `SeedableRng::seed_from_u64`: builds a `SmallRng` from
/// a numeric seed; nothing is assumed of the stream it will produce.
#[verifier::external_body]
pub(crate) fn rng_from_seed(seed: u64) -> rand::rngs::SmallRng {
    <rand::rngs::SmallRng as rand::SeedableRng>::seed_from_u64(seed)
}

/// Relies on rand's `RngCore::next_u64`; nothing is promised of the value
/// drawn.
#[verifier::external_body]
pub(crate) fn rng_next_u64(rng: &mut rand::rngs::SmallRng) -> u64 {
    rand::RngCore::next_u64(rng)
}

/// Relies on rand's `RngCore::next_u32`; nothing is promised of the value
/// drawn.
#[verifier::external_body]
pub(crate) fn rng_next_u32(rng: &mut rand::rngs::SmallRng) -> u32 {
    rand::RngCore::next_u32(rng)
}

/// Relies on rand's `SliceRandom::shuffle`: permutes the cells in place, so
/// the result holds exactly the elements it was handed.
#[verifier::external_body]
pub(crate) fn shuffle_cells(rng: &mut rand::rngs::SmallRng, cells: &mut Vec<usize>)
    ensures
        final(cells)@.to_multiset() == old(cells)@.to_multiset(),
        final(cells)@.len() == old(cells)@.len(),
{
    rand::seq::SliceRandom::shuffle(cells.as_mut_slice(), rng);
}

} // verus!
