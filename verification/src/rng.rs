//! A seeded, fully specified pseudo-random source.
//!
//! Every corruption decision of the engine is derived from this one stream,
//! in a fixed call order, so the generator itself is part of the engine's
//! contract: two runs from the same seed draw the same values in the same
//! order. The algorithm is pinned down exactly — it is the SplitMix64 step
//! (an additive constant walk whose output is finalized by xor-shift-multiply
//! mixing), chosen because it is simple to state and has no hidden state
//! beyond one 64-bit word.
//!
//! The stream is integer-only on purpose: where a unit-interval draw would
//! be compared against a probability, the engine compares `next_below(n)`
//! against an integer threshold out of `n`, which keeps every draw exactly
//! specifiable and every comparison exact.

use vstd::prelude::*;

verus! {

/// The additive constant of the SplitMix64 state walk.
pub const STATE_STEP: u64 = 0x9E37_79B9_7F4A_7C15;

/// First multiplier of the SplitMix64 output mix.
pub const MIX_MUL_1: u64 = 0xBF58_476D_1CE4_E5B9;

/// Second multiplier of the SplitMix64 output mix.
pub const MIX_MUL_2: u64 = 0x94D0_49BB_1331_11EB;

/// The state after one draw: the seed walks by `STATE_STEP`, wrapping.
pub open spec fn advance(s: u64) -> u64 {
    s.wrapping_add(STATE_STEP)
}

/// The SplitMix64 output finalizer on a state word.
pub open spec fn mix(z: u64) -> u64 {
    let z1 = (z ^ (z >> 30)).wrapping_mul(MIX_MUL_1);
    let z2 = (z1 ^ (z1 >> 27)).wrapping_mul(MIX_MUL_2);
    z2 ^ (z2 >> 31)
}

/// The value produced by one draw from state `s`.
pub open spec fn draw(s: u64) -> u64 {
    mix(advance(s))
}

/// A deterministic random source: a 64-bit state advancing by a fixed step
/// with every draw.
///
/// The state is the whole of the generator; callers own one per invocation
/// (or per session) and thread it explicitly, so no randomness is hidden in
/// shared state.
#[derive(Clone, Copy, Debug, PartialEq, Eq, Structural)]
pub struct DeterministicRng {
    /// Current state word; the next draw returns `mix(advance(state))`.
    pub state: u64,
}

impl DeterministicRng {
    /// A fresh stream starting from `seed`.
    pub fn from_seed(seed: u64) -> (r: Self)
        ensures
            r.state == seed,
    {
        DeterministicRng { state: seed }
    }

    /// Restarts the stream from `seed`; an explicit, caller-triggered reset.
    pub fn reseed(&mut self, seed: u64)
        ensures
            final(self).state == seed,
    {
        self.state = seed;
    }

    /// One raw draw: advances the state once and returns the mixed word.
    pub fn next_u64(&mut self) -> (r: u64)
        ensures
            final(self).state == advance(old(self).state),
            r == draw(old(self).state),
    {
        self.state = self.state.wrapping_add(STATE_STEP);
        let z = self.state;
        let z1 = (z ^ (z >> 30)).wrapping_mul(MIX_MUL_1);
        let z2 = (z1 ^ (z1 >> 27)).wrapping_mul(MIX_MUL_2);
        z2 ^ (z2 >> 31)
    }

    /// One draw reduced below `n`: returns `draw % n`, in `[0, n)`.
    pub fn next_below(&mut self, n: u64) -> (r: u64)
        requires
            n >= 1,
        ensures
            final(self).state == advance(old(self).state),
            r == draw(old(self).state) % n,
            r < n,
    {
        let v = self.next_u64();
        v % n
    }

    /// One draw mapped into the inclusive range `[lo, hi]`.
    pub fn next_in_range(&mut self, lo: u64, hi: u64) -> (r: u64)
        requires
            lo <= hi,
            hi - lo < u64::MAX,
        ensures
            final(self).state == advance(old(self).state),
            r == lo + (draw(old(self).state) as int) % (hi - lo + 1),
            lo <= r <= hi,
    {
        let span = hi - lo + 1;
        let v = self.next_u64();
        lo + v % span
    }
}

} // verus!
