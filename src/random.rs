//! The pseudo-random source that drives the simulation, and the few draws
//! that the simulation makes from it.
use rand::rngs::StdRng;
use rand::seq::IteratorRandom;
use rand::Rng;
use vstd::prelude::*;

verus! {

#[verifier::external_type_specification]
#[verifier::external_body]
pub struct ExStdRng(StdRng);

/// The game's random source.
pub struct DrugWarsRng(pub StdRng);

/// Relies on rand's `Rng::gen_ratio`: `true` with probability
/// `numerator / denominator`; it always returns `false` when the numerator is 0
/// and always `true` when numerator and denominator are equal. It panics when
/// the denominator is 0 or below the numerator.
#[verifier::external_body]
pub(crate) fn gen_ratio(rng: &mut StdRng, numerator: u32, denominator: u32) -> (r: bool)
    requires
        0 < denominator,
        numerator <= denominator,
    ensures
        numerator == 0 ==> !r,
        numerator == denominator ==> r,
{
    rng.gen_ratio(numerator, denominator)
}

/// Relies on rand's `Rng::gen_range` on a half-open `usize` range: a value in
/// `[low, high)`. It panics on an empty range.
#[verifier::external_body]
pub(crate) fn gen_below(rng: &mut StdRng, low: usize, high: usize) -> (r: usize)
    requires
        low < high,
    ensures
        low <= r < high,
{
    rng.gen_range(low..high)
}

/// Relies on rand's `IteratorRandom::choose` over `0..n`: one of the indices,
/// or `None` when there is none.
#[verifier::external_body]
pub(crate) fn choose_index(rng: &mut StdRng, n: usize) -> (r: Option<usize>)
    ensures
        n == 0 <==> r is None,
        r matches Some(i) ==> i < n,
{
    (0..n).choose(rng)
}

} // verus!
