//! The source of randomness: a seeded generator from the `rand` crate behind
//! trusted wrappers, and verified helpers that shape draws into fixed-point
//! ranges. No contract says anything about which value comes out, only what
//! holds of every outcome.

use crate::fixed::{Fx, SCALE};
use rand::RngExt;
use rand::SeedableRng;
use vstd::prelude::*;

verus! {

#[verifier::external_type_specification]
#[verifier::external_body]
pub struct ExStdRng(rand::rngs::StdRng);

/// A stream of pseudo-random draws, reproducible from its seed.
pub struct RandomSource {
    rng: rand::rngs::StdRng,
}

impl RandomSource {
    /// Relies on rand::rngs::StdRng and rand_core's SeedableRng::seed_from_u64:
    /// builds a generator from a 64-bit seed. Nothing is promised of the
    /// values it will produce.
    #[verifier::external_body]
    pub fn from_seed(seed: u64) -> RandomSource {
        RandomSource { rng: rand::rngs::StdRng::seed_from_u64(seed) }
    }

    /// Relies on rand's RngExt::random_range over `0..n`: a draw below `n`,
    /// uniform over the range. The call panics on an empty range, so `n`
    /// must be positive.
    #[verifier::external_body]
    pub fn next_below(&mut self, n: u64) -> (r: u64)
        requires
            n > 0,
        ensures
            r < n,
    {
        self.rng.random_range(0..n)
    }
}

/// A draw in `[0, 1)`: every raw value below one unit is possible.
pub fn rand_unit(rng: &mut RandomSource) -> (r: Fx)
    ensures
        0 <= r.raw < SCALE,
{
    let d = rng.next_below(SCALE as u64);
    Fx { raw: d as i64 }
}

/// A draw in `[min, max)`.
pub fn rand_between(min: Fx, max: Fx, rng: &mut RandomSource) -> (r: Fx)
    requires
        min.raw < max.raw,
        max.raw - min.raw <= i64::MAX,
    ensures
        min.raw <= r.raw < max.raw,
{
    let span = (max.raw - min.raw) as u64;
    let d = rng.next_below(span);
    Fx { raw: min.raw + (d as i64) }
}

} // verus!
