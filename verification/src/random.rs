//! The random source, and the draws that the library makes from it.

use crate::individual::{scores, total, Individual};
use rand::seq::SliceRandom;
use rand::Rng;
use rand_chacha::ChaCha8Rng;
use vstd::prelude::*;

verus! {

/// The generator that every random choice of the library is drawn from,
/// `rand_chacha::ChaCha8Rng`. Nothing is known of what it holds: it is
/// handed on to the draws below and to the kernels of the caller.
#[verifier::external_type_specification]
#[verifier::external_body]
pub struct ExChaCha8Rng(ChaCha8Rng);

/// Draws a truth value with `rand::Rng::gen_ratio`, which gives `true` with
/// a chance of `numerator` in `denominator`. It panics on a denominator of
/// zero and on a numerator above the denominator, so both are asked of the
/// caller. Of what is drawn only what its documentation guarantees is
/// claimed: never `true` with a numerator of zero, always `true` with a
/// numerator equal to the denominator.
#[verifier::external_body]
pub(crate) fn gen_ratio(rng: &mut ChaCha8Rng, numerator: u32, denominator: u32) -> (hit: bool)
    requires
        denominator > 0,
        numerator <= denominator,
    ensures
        numerator == 0 ==> !hit,
        numerator == denominator ==> hit,
{
    rng.gen_ratio(numerator, denominator)
}

/// Draws one member of `population` with `rand::seq::SliceRandom::choose_weighted`,
/// each weighted by its fitness. The draw fails on an empty slice and where
/// all weights are zero, and the weights are summed in a `u32`, so both are
/// asked of the caller. What is drawn is a member; a member of weight zero
/// is never drawn.
#[verifier::external_body]
pub(crate) fn choose_by_fitness<'a, I: Individual>(
    rng: &mut ChaCha8Rng,
    population: &'a [I],
) -> (chosen: &'a I)
    requires
        population@.len() > 0,
        0 < total(scores(population@)) <= u32::MAX,
    ensures
        population@.contains(*chosen),
        chosen.score() > 0,
{
    population.choose_weighted(rng, |individual| individual.fitness()).unwrap()
}

} // verus!
