//! Deterministic random stream for Monte Carlo posterior sampling, and the
//! Beta-Binomial input shape.

use vstd::prelude::*;

verus! {

/// LCG multiplier (Knuth / Numerical Recipes).
pub const LCG_MULTIPLIER: u64 = 6364136223846793005;

/// LCG increment (Knuth / Numerical Recipes).
pub const LCG_INCREMENT: u64 = 1442695040888963407;

/// One LCG step: `state · 6364136223846793005 + 1442695040888963407`
/// modulo 2⁶⁴.
pub open spec fn lcg_step(state: u64) -> u64 {
    vstd::wrapping::u64_specs::wrapping_add(
        vstd::wrapping::u64_specs::wrapping_mul(state, LCG_MULTIPLIER),
        LCG_INCREMENT,
    )
}

/// A minimal linear congruential generator for Monte Carlo sampling, shared
/// by the Bayesian engine and the bandit samplers so every posterior draw
/// comes from one seeded stream.
pub struct Lcg {
    state: u64,
}

impl Lcg {
    /// The current state of the generator.
    pub closed spec fn state(&self) -> u64 {
        self.state
    }

    /// Construct an LCG seeded with `seed`.
    pub fn new(seed: u64) -> (r: Self)
        ensures
            r.state() == seed,
    {
        Lcg { state: seed }
    }

    /// Advance the generator and return the new state.
    pub fn next_u64(&mut self) -> (r: u64)
        ensures
            r == lcg_step(old(self).state()),
            final(self).state() == r,
    {
        self.state = self.state.wrapping_mul(LCG_MULTIPLIER).wrapping_add(LCG_INCREMENT);
        self.state
    }

    /// Advance the generator and return the top 53 bits of the new state,
    /// the mantissa of a uniform draw in `[0, 1)` (divide by 2⁵³).
    pub fn next_mantissa(&mut self) -> (r: u64)
        ensures
            final(self).state() == lcg_step(old(self).state()),
            r == lcg_step(old(self).state()) >> 11u64,
            r < 0x20_0000_0000_0000,
    {
        let x = self.next_u64();
        assert(x >> 11u64 < 0x20_0000_0000_0000u64) by (bit_vector);
        x >> 11
    }
}

/// One Beta-Binomial datapoint.
#[derive(Debug, Clone, PartialEq, Eq)]
pub struct BetaBinomialInput {
    /// Variant identifier.
    pub variant_key: String,
    /// Number of successes / conversions.
    pub successes: u64,
    /// Total number of trials / exposed contexts.
    pub trials: u64,
}

} // verus!
