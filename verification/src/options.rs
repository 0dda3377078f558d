//! Corruption parameters.
//!
//! An `OptionsConfig` is an immutable-per-invocation record of the knobs the
//! engine reads: the rate window, the pixelation block size, one chance per
//! row transform, and the seed for the deterministic random stream.

use vstd::prelude::*;

verus! {

/// Number of probability steps: a chance of `PROB_SCALE` fires always,
/// a chance of `0` never.
pub const PROB_SCALE: u16 = 1000;

/// Corruption parameters for one engine invocation.
///
/// `min_rate` and `max_rate` are percentages in `[0, 100]` with
/// `min_rate <= max_rate`; they bound the fraction of rows eligible for
/// corruption. `pixelation` is the block size in samples for the pixelation
/// transform, at least 1 (1 is off). The five transform chances are
/// fixed-point probabilities in thousandths: `0` stands for 0.0 (never) and
/// `PROB_SCALE` for 1.0 (always). `seed` feeds the deterministic random
/// stream.
///
/// The engine never clamps these fields: keeping them within range is the
/// caller's responsibility, and `wf` says exactly what the engine assumes.
#[derive(Clone, Copy, Debug, PartialEq, Eq, Structural)]
pub struct OptionsConfig {
    /// Lower bound of the corruption rate window, a percentage.
    pub min_rate: u16,
    /// Upper bound of the corruption rate window, a percentage.
    pub max_rate: u16,
    /// Block size in samples for the pixelation transform; 1 is off.
    pub pixelation: u8,
    /// Chance of the line-shift transform, in thousandths.
    pub line_shift: u16,
    /// Chance of the reverse transform, in thousandths.
    pub reverse: u16,
    /// Chance of the flip transform, in thousandths.
    pub flip: u16,
    /// Chance of the channel-swap transform, in thousandths.
    pub channel_swap: u16,
    /// Chance of the channel-shift transform, in thousandths.
    pub channel_shift: u16,
    /// Seed for the deterministic random stream.
    pub seed: u64,
}

impl OptionsConfig {
    /// The ranges the engine assumes and never re-checks.
    pub open spec fn wf(self) -> bool {
        &&& self.min_rate <= self.max_rate
        &&& self.max_rate <= 100
        &&& self.pixelation >= 1
        &&& self.line_shift <= PROB_SCALE
        &&& self.reverse <= PROB_SCALE
        &&& self.flip <= PROB_SCALE
        &&& self.channel_swap <= PROB_SCALE
        &&& self.channel_shift <= PROB_SCALE
    }
}

/// The documented default parameters: a rate window of 1 to 7 percent,
/// pixelation block 10, every transform chance 0.3, and seed 42. Stable:
/// the same in every build and every process.
pub open spec fn spec_default_options() -> OptionsConfig {
    OptionsConfig {
        min_rate: 1u16,
        max_rate: 7u16,
        pixelation: 10u8,
        line_shift: 300u16,
        reverse: 300u16,
        flip: 300u16,
        channel_swap: 300u16,
        channel_shift: 300u16,
        seed: 42u64,
    }
}

impl Default for OptionsConfig {
    /// The documented default parameters, `spec_default_options` exactly.
    fn default() -> (r: Self)
        ensures
            r == spec_default_options(),
            r.wf(),
    {
        OptionsConfig {
            min_rate: 1,
            max_rate: 7,
            pixelation: 10,
            line_shift: 300,
            reverse: 300,
            flip: 300,
            channel_swap: 300,
            channel_shift: 300,
            seed: 42,
        }
    }
}

} // verus!
