//! The deterministic roll source, seeded from the scenario.
//!
//! Reserved for the accuracy-roll extension point; the baseline combat
//! applies damage unconditionally. Rolls are fixed-point fractions of one
//! (`0..FP_ONE`), like every other scalar of the simulation.

use vstd::prelude::*;
use crate::FP_ONE;

verus! {

/// Declares rand's `StdRng` so it can stand in a field; the value is
/// opaque to verification.
#[verifier::external_type_specification]
#[verifier::external_body]
pub struct ExStdRng(rand::rngs::StdRng);

/// Relies on rand's `SeedableRng::seed_from_u64` for `StdRng`: builds a
/// generator from a 64-bit seed.
#[verifier::external_body]
fn new_std_rng(seed: u64) -> rand::rngs::StdRng {
    <rand::rngs::StdRng as rand::SeedableRng>::seed_from_u64(seed)
}

/// Relies on rand's `Rng::next_u32`: one draw from the generator.
/// Nothing is assumed of the value drawn.
#[verifier::external_body]
fn std_rng_next_u32(rng: &mut rand::rngs::StdRng) -> u32 {
    rand::Rng::next_u32(rng)
}

/// A seeded pseudo-random source. Two sources built from the same seed
/// (with the same build of the library) yield the same stream.
pub struct SeededRng {
    rng: rand::rngs::StdRng,
}

impl SeededRng {
    /// A fresh generator for the given seed.
    pub fn new(seed: u64) -> SeededRng {
        SeededRng { rng: new_std_rng(seed) }
    }

    /// One roll: a fixed-point fraction of one, in `0..FP_ONE`.
    pub fn roll(&mut self) -> (r: i64)
        ensures
            0 <= r < FP_ONE,
    {
        let draw: u32 = std_rng_next_u32(&mut self.rng);
        (draw % (FP_ONE as u32)) as i64
    }

    /// One roll scaled into `min..=max`.
    pub fn range(&mut self, min: i64, max: i64) -> (r: i64)
        requires
            min <= max,
            -1_000_000_000_000 <= min,
            max <= 1_000_000_000_000,
        ensures
            min <= r <= max,
    {
        let roll: i64 = self.roll();
        let span: i64 = max - min;
        proof {
            lemma_scale_fraction(roll as int, span as int);
        }
        min + (roll * span) / FP_ONE
    }
}

proof fn lemma_scale_fraction(roll: int, span: int)
    requires
        0 <= roll < FP_ONE,
        0 <= span <= 2_000_000_000_000,
    ensures
        0 <= roll * span <= 2_000_000_000_000_000,
        0 <= (roll * span) / (FP_ONE as int) <= span,
{
    assert(0 <= roll * span <= 1000 * span) by (nonlinear_arith)
        requires
            0 <= roll < 1000,
            0 <= span,
    ;
    assert(0 <= (roll * span) / 1000 <= span) by (nonlinear_arith)
        requires
            0 <= roll * span <= 1000 * span,
            0 <= span,
    ;
}

} // verus!
