//! A small deterministic, seedable pseudo-random source: a 64-bit
//! linear congruential generator with the multiplier and increment of
//! Knuth's MMIX. Every draw is an exact function of the current state,
//! so a computation threaded through one generator is a pure function
//! of its seed.

use vstd::prelude::*;

verus! {

/// The multiplier of the linear congruential step.
pub const LCG_MUL: u64 = 6364136223846793005;

/// The increment of the linear congruential step.
pub const LCG_INC: u64 = 1442695040888963407;

/// The state following `s`: `s * LCG_MUL + LCG_INC` modulo 2^64.
pub open spec fn lcg_next(s: u64) -> u64 {
    vstd::wrapping::u64_specs::wrapping_add(
        vstd::wrapping::u64_specs::wrapping_mul(s, LCG_MUL),
        LCG_INC,
    )
}

/// The value a state yields: its upper 48 bits, which cycle far more
/// evenly than the low bits of a linear congruential state.
pub open spec fn lcg_output(s: u64) -> u64 {
    s >> 16
}

/// A deterministic pseudo-random number generator.
pub struct Rng {
    state: u64,
}

impl View for Rng {
    type V = u64;

    closed spec fn view(&self) -> u64 {
        self.state
    }
}

impl Rng {
    /// A generator starting from the given seed.
    pub fn seed(seed: u64) -> (r: Rng)
        ensures
            r@ == seed,
    {
        Rng { state: seed }
    }

    /// Advance the state once and yield its output value.
    pub fn next_u64(&mut self) -> (r: u64)
        ensures
            final(self)@ == lcg_next(old(self)@),
            r == lcg_output(lcg_next(old(self)@)),
    {
        self.state = self.state.wrapping_mul(LCG_MUL).wrapping_add(LCG_INC);
        self.state >> 16
    }

    /// Advance the state once and yield a value below `n`: the output
    /// of the new state, reduced modulo `n`.
    pub fn next_below(&mut self, n: u64) -> (r: u64)
        requires
            n >= 1,
        ensures
            final(self)@ == lcg_next(old(self)@),
            r == lcg_output(lcg_next(old(self)@)) % n,
            r < n,
    {
        let v = self.next_u64();
        v % n
    }
}

} // verus!
