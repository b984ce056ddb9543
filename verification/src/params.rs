use vstd::prelude::*;

use crate::color::Color;
use crate::color::default_off_color;
use crate::color::default_on_color;
use crate::units::{blend64, spec_blend, MICRO, NUM_MAX};

verus! {

/// Smallest duty cycle a program may set, in micro-units of 1.0.
pub const DUTY_MIN: u64 = 10_000;

/// Largest duty cycle a program may set, in micro-units of 1.0.
pub const DUTY_MAX: u64 = 990_000;

/// Parameters at a point in time. All numeric fields are decimal
/// fixed-point with `MICRO` steps per unit: `freq` and `tone` in
/// micro-hertz, `vol` and `duty` in micro-units of 1.0.
#[derive(Debug, Clone, Copy, PartialEq, Eq, Structural)]
pub struct Params {
    /// Entrainment frequency (pulse/beat rate) in micro-hertz.
    pub freq: u64,
    /// Carrier tone frequency in micro-hertz.
    pub tone: u64,
    /// Output volume in micro-units of `[0, 1]`.
    pub vol: u64,
    /// Duty cycle for isochronic tones, micro-units of `[0.01, 0.99]`.
    pub duty: u64,
    /// Visual color while the pulse is on.
    pub on: Color,
    /// Visual color while the pulse is off.
    pub off: Color,
}

impl Params {
    /// Range invariant every parameter set carries: positive bounded
    /// frequencies, volume within one unit, duty within its legal band.
    pub open spec fn wf(self) -> bool {
        &&& 0 < self.freq <= NUM_MAX
        &&& 0 < self.tone <= NUM_MAX
        &&& self.vol <= MICRO
        &&& DUTY_MIN <= self.duty <= DUTY_MAX
        &&& self.on.a == 255
        &&& self.off.a == 255
    }

    /// Pointwise interpolation of two parameter sets by `t` micro-units
    /// (clamped to `[0, MICRO]`); colors blend in linear light.
    pub open spec fn spec_lerp(a: Params, b: Params, t: int) -> Params {
        let tc = if t < 0 { 0 } else if t > MICRO { MICRO as int } else { t };
        Params {
            freq: spec_blend(a.freq as int, b.freq as int, tc, MICRO as int) as u64,
            tone: spec_blend(a.tone as int, b.tone as int, tc, MICRO as int) as u64,
            vol: spec_blend(a.vol as int, b.vol as int, tc, MICRO as int) as u64,
            duty: spec_blend(a.duty as int, b.duty as int, tc, MICRO as int) as u64,
            on: Color::spec_lerp(a.on, b.on, tc),
            off: Color::spec_lerp(a.off, b.off, tc),
        }
    }

    /// Linearly interpolate between two parameter sets by `t` micro-units
    /// of 1.0 (values above `MICRO` are clamped).
    pub fn lerp(a: &Params, b: &Params, t: u64) -> (res: Params)
        requires
            a.wf(),
            b.wf(),
        ensures
            res == Params::spec_lerp(*a, *b, t as int),
            res.wf(),
    {
        let tc: u64 = if t > MICRO { MICRO } else { t };
        Params {
            freq: blend64(a.freq, b.freq, tc, MICRO),
            tone: blend64(a.tone, b.tone, tc, MICRO),
            vol: blend64(a.vol, b.vol, tc, MICRO),
            duty: blend64(a.duty, b.duty, tc, MICRO),
            on: Color::lerp(a.on, b.on, tc),
            off: Color::lerp(a.off, b.off, tc),
        }
    }
}

impl Params {
    /// The documented default parameter set, as a specification value.
    pub open spec fn spec_default() -> Params {
        Params {
            freq: 10_000_000u64,
            tone: 200_000_000u64,
            vol: 500_000u64,
            duty: 500_000u64,
            on: Color { r: 255, g: 255, b: 255, a: 255 },
            off: Color { r: 0, g: 0, b: 0, a: 255 },
        }
    }
}

impl Default for Params {
    /// Documented defaults a program starts from: 10 Hz pulse, 200 Hz
    /// tone, half volume, half duty, white-on-black flash.
    fn default() -> (r: Self)
        ensures
            r == Params::spec_default(),
            r.wf(),
    {
        Params {
            freq: 10_000_000,
            tone: 200_000_000,
            vol: 500_000,
            duty: 500_000,
            on: default_on_color(),
            off: default_off_color(),
        }
    }
}

} // verus!
