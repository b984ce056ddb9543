use vstd::prelude::*;

use crate::color::Color;
use crate::params::{Params, DUTY_MAX, DUTY_MIN};
use crate::units::{MICRO, NUM_MAX};

verus! {

/// Pulse timing derived from a frequency and duty cycle: the pulse period
/// and the on-window inside each period, in microseconds.
#[derive(Debug, Clone, Copy, PartialEq, Eq, Structural)]
pub struct TimingState {
    /// Pulse frequency in micro-hertz.
    pub frequency: u64,
    /// One pulse period in microseconds.
    pub period_micros: u64,
    /// The on-window inside each period, in microseconds.
    pub pulse_duration_micros: u64,
}

impl TimingState {
    /// Derived-field invariant: a positive period no longer than one
    /// pulse per microsecond allows, and an on-window inside the period.
    pub open spec fn wf(self) -> bool {
        &&& 1 <= self.period_micros <= 1_000_000_000_000
        &&& self.pulse_duration_micros <= self.period_micros
    }

    /// Timing for a pulse frequency (micro-hertz) and duty cycle
    /// (micro-units): period `1/frequency`, on-window `duty * period`.
    pub fn new(frequency: u64, duty: u64) -> (t: TimingState)
        requires
            0 < frequency <= NUM_MAX,
            DUTY_MIN <= duty <= DUTY_MAX,
        ensures
            t.frequency == frequency,
            t.period_micros == 1_000_000_000_000u64 as int / frequency as int,
            t.pulse_duration_micros == t.period_micros * duty / (MICRO as int),
            t.wf(),
    {
        let period: u64 = 1_000_000_000_000u64 / frequency;
        proof {
            vstd::arithmetic::div_mod::lemma_div_is_ordered(
                frequency as int,
                1_000_000_000_000,
                frequency as int,
            );
            vstd::arithmetic::div_mod::lemma_div_by_self(frequency as int);
            assert(period >= 1);
            assert(period * duty <= MICRO * period) by (nonlinear_arith)
                requires
                    duty <= MICRO;
            vstd::arithmetic::div_mod::lemma_multiply_divide_le(
                period as int * duty as int,
                MICRO as int,
                period as int,
            );
        }
        let pulse: u64 = period * duty / MICRO;
        TimingState { frequency, period_micros: period, pulse_duration_micros: pulse }
    }
}

/// Cumulative pulse on-time up to `t`: one on-window per full period
/// elapsed, plus the on part of the current period.
pub open spec fn spec_cum_on(t: int, period: int, pulse: int) -> int {
    if t <= 0 {
        0
    } else {
        let part = if t % period < pulse {
            t % period
        } else {
            pulse
        };
        (t / period) * pulse + part
    }
}

/// Cumulative on-time never exceeds the elapsed time.
proof fn lemma_cum_le_t(t: int, period: int, pulse: int)
    requires
        1 <= period,
        0 <= pulse <= period,
    ensures
        0 <= spec_cum_on(t, period, pulse) <= if t <= 0 {
            0
        } else {
            t
        },
{
    if t > 0 {
        vstd::arithmetic::div_mod::lemma_fundamental_div_mod(t, period);
        vstd::arithmetic::div_mod::lemma_div_pos_is_pos(t, period);
        vstd::arithmetic::div_mod::lemma_mod_division_less_than_divisor(t, period);
        let q = t / period;
        let m = t % period;
        let part = if m < pulse {
            m
        } else {
            pulse
        };
        assert(part <= m);
        assert(q * pulse <= q * period) by (nonlinear_arith)
            requires
                0 <= q,
                pulse <= period;
        assert(q * pulse >= 0) by (nonlinear_arith)
            requires
                q >= 0,
                pulse >= 0;
        assert(period * q + m == t);
        assert(q * period == period * q) by (nonlinear_arith);
    }
}

/// Cumulative on-time is monotone in time.
proof fn lemma_cum_monotone(s: int, e: int, period: int, pulse: int)
    requires
        1 <= period,
        0 <= pulse <= period,
        s <= e,
    ensures
        spec_cum_on(s, period, pulse) <= spec_cum_on(e, period, pulse),
{
    lemma_cum_le_t(s, period, pulse);
    lemma_cum_le_t(e, period, pulse);
    if s > 0 && e > 0 {
        let qs = s / period;
        let qe = e / period;
        vstd::arithmetic::div_mod::lemma_div_is_ordered(s, e, period);
        vstd::arithmetic::div_mod::lemma_fundamental_div_mod(s, period);
        vstd::arithmetic::div_mod::lemma_fundamental_div_mod(e, period);
        vstd::arithmetic::div_mod::lemma_mod_division_less_than_divisor(s, period);
        vstd::arithmetic::div_mod::lemma_mod_division_less_than_divisor(e, period);
        if qs == qe {
            assert(s % period <= e % period) by (nonlinear_arith)
                requires
                    s <= e,
                    s == period * qs + s % period,
                    e == period * qe + e % period,
                    qs == qe;
        } else {
            let ps = if s % period < pulse {
                s % period
            } else {
                pulse
            };
            assert(qs * pulse + ps <= qe * pulse) by (nonlinear_arith)
                requires
                    qs + 1 <= qe,
                    0 <= pulse,
                    ps <= pulse;
            assert(spec_cum_on(e, period, pulse) >= qe * pulse);
        }
    }
}

/// Fraction of the interval `[interval_start, interval_end)` during which
/// the pulse is on, in micro-units, clamped into `[0, MICRO]`; zero for an
/// empty or reversed interval.
pub open spec fn spec_on_ratio(s: int, e: int, period: int, pulse: int) -> int {
    if e <= s {
        0
    } else {
        let on = spec_cum_on(e, period, pulse) - spec_cum_on(s, period, pulse);
        let r = on * MICRO / (e - s);
        if r > MICRO {
            MICRO as int
        } else {
            r
        }
    }
}

/// Cumulative pulse on-time up to `t` microseconds.
fn cum_on(t: u64, period: u64, pulse: u64) -> (r: u64)
    requires
        1 <= period,
        pulse <= period,
    ensures
        r == spec_cum_on(t as int, period as int, pulse as int),
        r <= t,
{
    if t == 0 {
        return 0;
    }
    let q: u64 = t / period;
    let m: u64 = t % period;
    let part: u64 = if m < pulse {
        m
    } else {
        pulse
    };
    proof {
        lemma_cum_le_t(t as int, period as int, pulse as int);
        vstd::arithmetic::div_mod::lemma_fundamental_div_mod(t as int, period as int);
        assert(part <= m);
        assert(q * pulse <= q * period) by (nonlinear_arith)
            requires
                0 <= q,
                pulse <= period;
        assert(period as int * (q as int) + m == t);
        assert(q as int * (period as int) == period as int * (q as int)) by (nonlinear_arith);
    }
    q * pulse + part
}

/// Exact fraction of the render interval `[interval_start, interval_end)`
/// (microseconds) during which the pulse was on, in micro-units of
/// `[0, 1]` — the closed-form integral that anti-aliases the flash at any
/// refresh rate.
pub fn get_on_ratio(interval_start: u64, interval_end: u64, timing: &TimingState) -> (r: u64)
    requires
        timing.wf(),
    ensures
        r == spec_on_ratio(
            interval_start as int,
            interval_end as int,
            timing.period_micros as int,
            timing.pulse_duration_micros as int,
        ),
        r <= MICRO,
{
    if interval_end <= interval_start {
        return 0;
    }
    let period = timing.period_micros;
    let pulse = timing.pulse_duration_micros;
    let ce = cum_on(interval_end, period, pulse);
    let cs = cum_on(interval_start, period, pulse);
    proof {
        lemma_cum_monotone(
            interval_start as int,
            interval_end as int,
            period as int,
            pulse as int,
        );
        assert(ce as int - cs as int <= u64::MAX * 1);
        assert((ce - cs) * MICRO <= 0xFFFF_FFFF_FFFF_FFFFu64 * 1_000_000) by (nonlinear_arith)
            requires
                ce - cs <= 0xFFFF_FFFF_FFFF_FFFFu64,
                ce >= cs,
                MICRO == 1_000_000u64;
    }
    let on: u64 = ce - cs;
    let dt: u64 = interval_end - interval_start;
    let rv: u128 = (on as u128) * (MICRO as u128) / (dt as u128);
    if rv > MICRO as u128 {
        MICRO
    } else {
        rv as u64
    }
}

/// The clear color for a frame: the linear-light blend of the off and on
/// colors by the interval's on-ratio (micro-units).
pub fn clear_color(params: &Params, on_ratio: u64) -> (c: Color)
    ensures
        c == Color::spec_lerp(params.off, params.on, on_ratio as int),
{
    Color::lerp(params.off, params.on, on_ratio)
}

} // verus!
