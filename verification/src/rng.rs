//! Pseudo-random number source of the weighted scheduler.
//!
//! The generator itself comes from the `libafl_bolts` crate; everything
//! that interprets its output (reduction to a range, weighted selection)
//! is verified code that holds for every value the generator may yield.

use vstd::prelude::*;

verus! {

#[verifier::external_type_specification]
#[verifier::external_body]
pub struct ExRomuDuoJrRand(libafl_bolts::rands::RomuDuoJrRand);

/// Relies on `libafl_bolts::rands::RomuDuoJrRand::with_seed`: builds a
/// generator from the given seed.
#[verifier::external_body]
pub(crate) fn rng_with_seed(seed: u64) -> (r: libafl_bolts::rands::RomuDuoJrRand) {
    libafl_bolts::rands::RomuDuoJrRand::with_seed(seed)
}

/// Relies on `libafl_bolts::rands::Rand::next`: draws the generator's next
/// 64-bit value. Nothing is assumed about the outcome; callers must hold
/// for every value.
#[verifier::external_body]
pub(crate) fn rng_next(rng: &mut libafl_bolts::rands::RomuDuoJrRand) -> (r: u64) {
    libafl_bolts::rands::Rand::next(rng)
}

} // verus!
