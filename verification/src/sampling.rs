//! The source of randomness.
//!
//! A [`Sampler`] owns a seeded `fastrand` generator and hands out uniform
//! fixed-point fractions in `[0, 1)`.  Nothing is assumed about the values
//! drawn; every user of a draw states what holds of each possible outcome.

use vstd::prelude::*;
use crate::scalar::SCALE;

verus! {

#[verifier::external_type_specification]
#[verifier::external_body]
pub struct ExRng(fastrand::Rng);

/// Relies on fastrand::Rng::with_seed: builds a generator from a seed.
#[verifier::external_body]
fn rng_with_seed(seed: u64) -> fastrand::Rng {
    fastrand::Rng::with_seed(seed)
}

/// Relies on fastrand::Rng::u64: draws a machine word; nothing can be
/// promised of a random value.
#[verifier::external_body]
fn rng_next(rng: &mut fastrand::Rng) -> u64 {
    rng.u64(..)
}

/// A deterministic pseudo-random source, seeded at construction.
pub struct Sampler {
    rng: fastrand::Rng,
}

impl Sampler {
    /// A sampler whose draws are fixed by `seed`.
    pub fn new(seed: u64) -> Sampler {
        Sampler { rng: rng_with_seed(seed) }
    }

    /// A uniform fixed-point fraction in `[0, 1)`.
    pub fn unit_fraction(&mut self) -> (r: i64)
        ensures
            0 <= r < SCALE,
    {
        let w: u64 = rng_next(&mut self.rng);
        (w % (SCALE as u64)) as i64
    }
}

} // verus!
