//! The random draws the bakery makes, through the `rand` crate.

use rand::rngs::ThreadRng;
use rand::Rng;
use vstd::prelude::*;

verus! {

#[verifier::external_type_specification]
#[verifier::external_body]
pub struct ExThreadRng(rand::rngs::ThreadRng);

/// Calls `rand::thread_rng`, which hands out the generator of the current
/// thread. Nothing is claimed of the generator's state.
#[verifier::external_body]
pub(crate) fn thread_rng() -> ThreadRng {
    rand::thread_rng()
}

/// Calls `Rng::gen_ratio`, which returns `true` with a probability of
/// `numerator / denominator`. The claim: it does not panic when
/// `0 < denominator` and `numerator <= denominator` (it panics otherwise),
/// it returns `false` when `numerator` is zero and `true` when `numerator`
/// equals `denominator`, as its documentation guarantees.
#[verifier::external_body]
pub(crate) fn gen_ratio(rng: &mut ThreadRng, numerator: u32, denominator: u32) -> (b: bool)
    requires
        0 < denominator,
        numerator <= denominator,
    ensures
        numerator == 0 ==> !b,
        numerator == denominator ==> b,
{
    rng.gen_ratio(numerator, denominator)
}

/// Calls `Rng::gen_range` on the inclusive range `low..=high`. The claim:
/// it does not panic when `low <= high` (it panics on an empty range) and
/// the value it returns lies in the range.
#[verifier::external_body]
pub(crate) fn gen_range_inclusive(rng: &mut ThreadRng, low: usize, high: usize) -> (v: usize)
    requires
        low <= high,
    ensures
        low <= v <= high,
{
    rng.gen_range(low..=high)
}

} // verus!
