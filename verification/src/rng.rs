//! Random number generation for dungeon generation and monster placement.
//!
//! The randomness itself comes from the `rand` crate through a seedable
//! generator; everything the engine decides with a random value is verified
//! for every value the generator could hand back.

use vstd::prelude::*;

verus! {

#[verifier::external_type_specification]
#[verifier::external_body]
pub struct ExStdRng(rand::rngs::StdRng);

/// Relies on `rand::Rng::gen_range` on a half-open `i32` range: the result
/// is uniformly drawn from `[lo, hi)`; the call panics only on an empty
/// range, which the precondition excludes.
#[verifier::external_body]
pub(crate) fn rng_range(rng: &mut rand::rngs::StdRng, lo: i32, hi: i32) -> (r: i32)
    requires
        lo < hi,
    ensures
        lo <= r < hi,
{
    rand::Rng::gen_range(rng, lo..hi)
}

/// Relies on `rand::Rng::gen::<bool>`: a fair coin flip. Nothing is claimed
/// of the outcome.
#[verifier::external_body]
pub(crate) fn rng_coin(rng: &mut rand::rngs::StdRng) -> bool {
    rand::Rng::gen::<bool>(rng)
}

} // verus!
