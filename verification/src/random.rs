//! A seeded source of random choices.

use vstd::prelude::*;
use rand::Rng;
use rand::SeedableRng;
use rand_chacha::ChaCha8Rng;

verus! {

/// The generator of `rand_chacha`. Nothing is known of its state.
#[verifier::external_type_specification]
#[verifier::external_body]
pub struct ExChaCha8Rng(ChaCha8Rng);

/// `ChaCha8Rng::seed_from_u64`: a generator seeded with `seed`.
#[verifier::external_body]
fn seeded(seed: u64) -> ChaCha8Rng {
    ChaCha8Rng::seed_from_u64(seed)
}

/// `Rng::random_range` over `low..high`. Not proved, taken from its documentation: the number
/// drawn lies in the range. It panics on an empty range, which `requires` leaves out.
#[verifier::external_body]
fn draw_between(generator: &mut ChaCha8Rng, low: i32, high: i32) -> (r: i32)
    requires
        low < high,
    ensures
        low <= r < high,
{
    generator.random_range(low..high)
}

/// `Rng::random_range` over `0..len`. Not proved, taken from its documentation: the position
/// drawn lies below `len`. It panics on an empty range, which `requires` leaves out.
#[verifier::external_body]
fn draw_below(generator: &mut ChaCha8Rng, len: usize) -> (r: usize)
    requires
        len > 0,
    ensures
        r < len,
{
    generator.random_range(0..len)
}

/// `Rng::random_ratio`. Not proved, taken from its documentation: with a numerator of 0 the
/// answer is `false`, with numerator and denominator equal it is `true`. It panics on a
/// denominator of 0 and on a numerator above the denominator, which `requires` leaves out.
#[verifier::external_body]
fn draw_ratio(generator: &mut ChaCha8Rng, numerator: u32, denominator: u32) -> (r: bool)
    requires
        denominator > 0,
        numerator <= denominator,
    ensures
        numerator == 0 ==> !r,
        numerator == denominator ==> r,
{
    generator.random_ratio(numerator, denominator)
}

/// `Rng::random` for `i32`: any number of the type.
#[verifier::external_body]
fn draw_any(generator: &mut ChaCha8Rng) -> i32 {
    generator.random()
}

/// A source of random numbers that gives the same sequence for the same seed.
pub struct RandomSource(ChaCha8Rng);

impl RandomSource {
    /// A source seeded with `seed`.
    pub fn new(seed: u64) -> RandomSource {
        RandomSource(seeded(seed))
    }

    /// A number drawn from `range`.
    pub fn range(&mut self, range: std::ops::Range<i32>) -> (r: i32)
        requires
            range.start < range.end,
        ensures
            range.start <= r < range.end,
    {
        draw_between(&mut self.0, range.start, range.end)
    }

    /// `true` with a chance of `n` in `d`: never where `n` is 0, always where `n` equals `d`.
    pub fn ratio(&mut self, n: u32, d: u32) -> (r: bool)
        requires
            d > 0,
            n <= d,
        ensures
            n == 0 ==> !r,
            n == d ==> r,
    {
        draw_ratio(&mut self.0, n, d)
    }

    /// Any `i32`.
    pub fn random(&mut self) -> i32 {
        draw_any(&mut self.0)
    }

    /// A copy of one element of `vec`, picked at random.
    pub fn pick<T: Clone>(&mut self, vec: &Vec<T>) -> (r: T)
        requires
            vec.len() > 0,
        ensures
            exists|i: int| 0 <= i < vec.len() && cloned(#[trigger] vec[i], r),
    {
        let index: usize = draw_below(&mut self.0, vec.len());
        vec[index].clone()
    }
}

} // verus!
