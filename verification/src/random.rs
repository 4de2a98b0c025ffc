//! The pseudo-random source used for apple placement.
//!
//! The generator itself comes from the `rand` crate and is opaque to the
//! verifier; every draw goes through a small trusted wrapper whose contract
//! states only what holds of every outcome.

use vstd::prelude::*;

verus! {

#[verifier::external_type_specification]
#[verifier::external_body]
pub struct ExStdRng(rand::rngs::StdRng);

/// Relies on rand's `SeedableRng::seed_from_u64`: builds a generator whose
/// output stream is a function of the seed alone.
#[verifier::external_body]
fn seed_rng(seed: u64) -> rand::rngs::StdRng {
    <rand::rngs::StdRng as rand::SeedableRng>::seed_from_u64(seed)
}

/// Relies on rand's `RngExt::random_range` over `0..bound`: returns a value
/// of that half-open range; it panics only on an empty range, which the
/// precondition excludes.
#[verifier::external_body]
fn draw_below(rng: &mut rand::rngs::StdRng, bound: i32) -> (r: i32)
    requires
        bound >= 1,
    ensures
        0 <= r < bound,
{
    rand::RngExt::random_range(rng, 0..bound)
}

/// Relies on rand's `Rng::next_u64`: returns the generator's next word.
/// Nothing is promised of the value.
#[verifier::external_body]
fn draw_u64(rng: &mut rand::rngs::StdRng) -> u64 {
    rand::Rng::next_u64(rng)
}

/// A seeded pseudo-random source. Two sources built from the same seed
/// yield the same draws in the same order, which makes rounds replayable.
pub struct RandomSource {
    rng: rand::rngs::StdRng,
}

impl RandomSource {
    /// A source whose draws are determined by `seed`.
    pub fn from_seed(seed: u64) -> RandomSource {
        RandomSource { rng: seed_rng(seed) }
    }

    /// A uniform draw from `0..bound`.
    pub(crate) fn below(&mut self, bound: i32) -> (r: i32)
        requires
            bound >= 1,
        ensures
            0 <= r < bound,
    {
        draw_below(&mut self.rng, bound)
    }

    /// A fresh source seeded from this one, for a new round.
    pub(crate) fn fresh(&mut self) -> RandomSource {
        let seed = draw_u64(&mut self.rng);
        RandomSource::from_seed(seed)
    }
}

} // verus!
