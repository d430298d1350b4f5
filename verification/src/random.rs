//! The random draws of the search, made by the `rand` crate.
//!
//! Nothing is proved of these functions: each states the range that the
//! crate documents for the value it returns.

use vstd::prelude::*;
use rand::distributions::{Distribution, Uniform};
use rand::rngs::StdRng;
use rand::Rng;

verus! {

/// The generator `rand::rngs::StdRng`, handed through to the draws; nothing
/// is known of its state.
#[verifier::external_type_specification]
#[verifier::external_body]
pub struct ExStdRng(rand::rngs::StdRng);

/// Samples `Uniform::new(low, high)`, which the crate documents as uniform
/// over the half-open range from `low` to `high`; it panics unless
/// `low < high`. Claimed: the value lies in that range.
#[verifier::external_body]
pub(crate) fn draw_range(rng: &mut StdRng, low: i32, high: i32) -> (value: i32)
    requires
        low < high,
    ensures
        low <= value < high,
{
    Uniform::new(low, high).sample(rng)
}

/// Samples `Uniform::new_inclusive(low, high)`, which the crate documents as
/// uniform over the closed range from `low` to `high`; it panics unless
/// `low <= high`. Claimed: the value lies in that range.
#[verifier::external_body]
pub(crate) fn draw_inclusive(rng: &mut StdRng, low: i32, high: i32) -> (value: i32)
    requires
        low <= high,
    ensures
        low <= value <= high,
{
    Uniform::new_inclusive(low, high).sample(rng)
}

/// Samples `Uniform::new(0, len)` over `usize`: a place in a list of `len`
/// items; it panics where `len` is 0. Claimed: the value is below `len`.
#[verifier::external_body]
pub(crate) fn draw_index(rng: &mut StdRng, len: usize) -> (index: usize)
    requires
        len > 0,
    ensures
        index < len,
{
    Uniform::new(0, len).sample(rng)
}

/// Calls `Rng::gen_range(0..len)`, which the crate documents as a value of
/// the range; it panics where the range is empty. Claimed: the value is below
/// `len`.
#[verifier::external_body]
pub(crate) fn draw_from_range(rng: &mut StdRng, len: usize) -> (index: usize)
    requires
        len > 0,
    ensures
        index < len,
{
    rng.gen_range(0..len)
}

} // verus!
