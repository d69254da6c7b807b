//! Configuration of the interpolation engine.

use crate::fixed::SCALE;
use crate::fixed::tdiv;
use vstd::prelude::*;

verus! {

/// Tuning of the engine, immutable after construction.
///
/// Durations (`period`, `buf_duration`, `dynamic_playback_jitter_duration`)
/// are in microseconds.  The `*_periods` fields are multiples of `period`
/// and the `*_speed` fields are timescales, both scaled by [`SCALE`]
/// (so `SCALE` stands for 1.0).
#[derive(Clone, Copy)]
pub struct Settings {
    /// Microseconds between two consecutive sends by the remote.
    pub period: i64,
    /// Microseconds of snapshot history to retain.
    pub buf_duration: i64,
    /// Widen the playback offset by the measured network jitter.
    pub dynamic_playback_time: bool,
    /// Window, in microseconds of received packets, over which jitter is
    /// measured when `dynamic_playback_time` is set.
    pub dynamic_playback_jitter_duration: i64,
    /// How far behind the remote the playback aims to run, in periods.
    pub playback_offset_periods: i64,
    /// Maximum drift from the target time before a forced clamp, in periods.
    pub playback_clamp_periods: i64,
    /// Catch-up level (negative, in periods) below which playback slows.
    pub playback_slow_periods: i64,
    /// Local timescale while slowing.
    pub playback_slow_speed: i64,
    /// Catch-up level (positive, in periods) above which playback hastens.
    pub playback_fast_periods: i64,
    /// Local timescale while hastening.
    pub playback_fast_speed: i64,
}

impl Settings {
    /// Well-formedness: the period is positive and at most one second, the
    /// other durations cover at least one period, the multipliers are at
    /// most a thousand periods with the documented signs, and the speeds
    /// are positive and at most 2.0.
    pub open spec fn valid(self) -> bool {
        &&& 0 < self.period <= SCALE
        &&& self.period <= self.buf_duration <= 1_000 * (SCALE as int)
        &&& self.period <= self.dynamic_playback_jitter_duration <= 1_000 * (SCALE as int)
        &&& 0 <= self.playback_offset_periods <= 1_000 * (SCALE as int)
        &&& 0 <= self.playback_clamp_periods <= 1_000 * (SCALE as int)
        &&& -1_000 * (SCALE as int) <= self.playback_slow_periods <= 0
        &&& 0 <= self.playback_fast_periods <= 1_000 * (SCALE as int)
        &&& 0 < self.playback_slow_speed <= 2 * (SCALE as int)
        &&& 0 < self.playback_fast_speed <= 2 * (SCALE as int)
    }

    /// A duration of `periods` (a `SCALE`-scaled multiple) times the period,
    /// in microseconds.
    pub open spec fn spec_scaled_periods(self, periods: i64) -> int {
        tdiv(self.period * periods, SCALE as int)
    }

    /// How far behind the remote clock the playback aims to run
    /// (microseconds).
    pub fn playback_offset(&self) -> (r: i64)
        requires
            self.valid(),
        ensures
            r == self.spec_scaled_periods(self.playback_offset_periods),
            0 <= r <= 1_000_000_000,
    {
        self.scaled_periods(self.playback_offset_periods)
    }

    /// Half-width of the band about the target time within which the
    /// playback time is allowed to drift (microseconds).
    pub fn playback_clamp(&self) -> (r: i64)
        requires
            self.valid(),
        ensures
            r == self.spec_scaled_periods(self.playback_clamp_periods),
            0 <= r <= 1_000_000_000,
    {
        self.scaled_periods(self.playback_clamp_periods)
    }

    /// Smoothed catch-up level above which the playback hastens
    /// (microseconds).
    pub fn fast_threshold(&self) -> (r: i64)
        requires
            self.valid(),
        ensures
            r == self.spec_scaled_periods(self.playback_fast_periods),
            0 <= r <= 1_000_000_000,
    {
        self.scaled_periods(self.playback_fast_periods)
    }

    /// Smoothed catch-up level below which the playback slows
    /// (microseconds; non-positive).
    pub fn slow_threshold(&self) -> (r: i64)
        requires
            self.valid(),
        ensures
            r == self.spec_scaled_periods(self.playback_slow_periods),
            -1_000_000_000 <= r <= 0,
    {
        self.scaled_periods(self.playback_slow_periods)
    }

    /// Packets per second dispatched by the remote, scaled by [`SCALE`].
    pub fn send_rate(&self) -> (r: i64)
        requires
            self.valid(),
        ensures
            r == (SCALE as int) * (SCALE as int) / (self.period as int),
            SCALE <= r <= (SCALE as int) * (SCALE as int),
    {
        proof {
            crate::fixed::lemma_tdiv_bounds((SCALE as int) * (SCALE as int), self.period as int);
            vstd::arithmetic::div_mod::lemma_div_is_ordered_by_denominator(
                (SCALE as int) * (SCALE as int),
                self.period as int,
                SCALE as int,
            );
        }
        (SCALE * SCALE) / self.period
    }

    /// Multiply the period by a `SCALE`-scaled number of periods.
    fn scaled_periods(&self, periods: i64) -> (r: i64)
        requires
            self.valid(),
            -1_000 * (SCALE as int) <= periods <= 1_000 * (SCALE as int),
        ensures
            r == self.spec_scaled_periods(periods),
            periods >= 0 ==> 0 <= r <= periods,
            periods <= 0 ==> periods <= r <= 0,
    {
        proof {
            assert(-1_000 * (SCALE as int) * (SCALE as int) <= self.period * periods <= 1_000 * (
            SCALE as int) * (SCALE as int)) by (nonlinear_arith)
                requires
                    0 < self.period <= SCALE,
                    -1_000 * (SCALE as int) <= periods <= 1_000 * (SCALE as int),
            ;
            crate::fixed::lemma_tdiv_fraction(periods as int, self.period as int, SCALE as int);
            assert(self.period * periods == (periods as int) * (self.period as int))
                by (nonlinear_arith);
        }
        (self.period * periods) / SCALE
    }
}

impl Default for Settings {
    /// The tuning the engine ships with: five sends a second, two seconds
    /// of history and of jitter window, one period of offset and of clamp,
    /// a half-period dead band, and gentle slow/fast speeds.
    fn default() -> (r: Self)
        ensures
            r.period == 200_000,
            r.buf_duration == 2_000_000,
            r.dynamic_playback_time == true,
            r.dynamic_playback_jitter_duration == 2_000_000,
            r.playback_offset_periods == SCALE,
            r.playback_clamp_periods == SCALE,
            r.playback_slow_periods == -500_000,
            r.playback_slow_speed == 960_000,
            r.playback_fast_periods == 500_000,
            r.playback_fast_speed == 1_020_000,
            r.valid(),
    {
        Settings {
            period: 200_000,
            buf_duration: 2_000_000,
            dynamic_playback_time: true,
            dynamic_playback_jitter_duration: 2_000_000,
            playback_offset_periods: SCALE,
            playback_clamp_periods: SCALE,
            playback_slow_periods: -500_000,
            playback_slow_speed: 960_000,
            playback_fast_periods: 500_000,
            playback_fast_speed: 1_020_000,
        }
    }
}

} // verus!
