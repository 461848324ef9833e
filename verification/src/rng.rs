//! The random source used by shape generation and mutation.
//!
//! All draws go through `rand::rngs::SmallRng`.  Each function here makes one
//! call into `rand`; its contract states only what holds of every outcome
//! (the range of the value), never which value comes back.
use vstd::prelude::*;

use rand::Rng;
use rand::rngs::SmallRng;

verus! {

/// `rand::rngs::SmallRng`, the generator threaded through the library.
#[verifier::external_type_specification]
#[verifier::external_body]
pub struct ExSmallRng(SmallRng);

/// `Rng::random_range(min..=max)` on `i32`: a value drawn from `[min, max]`.
/// `random_range` asserts that the range is non-empty, hence `min <= max`.
#[verifier::external_body]
pub(crate) fn rand_between(rng: &mut SmallRng, min: i32, max: i32) -> (r: i32)
    requires
        min <= max,
    ensures
        min <= r <= max,
{
    rng.random_range(min..=max)
}

/// `Rng::random_range(low..high)` on `u32`: a value drawn from `[low, high)`.
#[verifier::external_body]
pub(crate) fn random_below_u32(rng: &mut SmallRng, low: u32, high: u32) -> (r: u32)
    requires
        low < high,
    ensures
        low <= r < high,
{
    rng.random_range(low..high)
}

/// `Rng::random_range(low..high)` on `usize`: a value drawn from `[low, high)`.
#[verifier::external_body]
pub(crate) fn random_below_usize(rng: &mut SmallRng, low: usize, high: usize) -> (r: usize)
    requires
        low < high,
    ensures
        low <= r < high,
{
    rng.random_range(low..high)
}

/// `Rng::random::<u32>()`: any `u32`.
#[verifier::external_body]
pub(crate) fn random_u32(rng: &mut SmallRng) -> (r: u32) {
    rng.random::<u32>()
}

/// `Rng::random::<u16>()`: any `u16`.
#[verifier::external_body]
pub(crate) fn random_u16(rng: &mut SmallRng) -> (r: u16) {
    rng.random::<u16>()
}

/// `Rng::random_range(low..=high)` on `u16`: a value drawn from `[low, high]`.
#[verifier::external_body]
pub(crate) fn random_between_u16(rng: &mut SmallRng, low: u16, high: u16) -> (r: u16)
    requires
        low <= high,
    ensures
        low <= r <= high,
{
    rng.random_range(low..=high)
}

/// `Rng::random_range(low..=high)` on `usize`: a value drawn from `[low, high]`.
#[verifier::external_body]
pub(crate) fn random_between_usize(rng: &mut SmallRng, low: usize, high: usize) -> (r: usize)
    requires
        low <= high,
    ensures
        low <= r <= high,
{
    rng.random_range(low..=high)
}

/// `Rng::random::<u8>()`: any `u8`.
#[verifier::external_body]
pub(crate) fn random_u8(rng: &mut SmallRng) -> (r: u8) {
    rng.random::<u8>()
}

/// `Rng::random_ratio(1, 2)`: a fair coin, either value possible.  The
/// source builds the same Bernoulli threshold as `random_bool(0.5)`.
#[verifier::external_body]
pub(crate) fn coin_flip(rng: &mut SmallRng) -> (r: bool) {
    rng.random_ratio(1, 2)
}

} // verus!
