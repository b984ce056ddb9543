use vstd::prelude::*;
use vstd::string::StringSliceAdditionalSpecFns;

use crate::text::eq_bytes;
use crate::units::MICRO;

verus! {

/// Interpolation curve applied between two keyframes. The curve is a pure
/// function from a normalized segment position in `[0, MICRO]` (micro-units
/// of 1.0) to a blend weight in the same scale.
#[derive(Debug, Clone, Copy, PartialEq, Eq, Structural)]
pub enum Curve {
    /// Hold the segment's start value until the target keyframe, then jump.
    Step,
    /// Linear interpolation.
    Linear,
    /// Hermite smoothstep `3t^2 - 2t^3`.
    Smooth,
}

impl Default for Curve {
    fn default() -> (r: Self)
        ensures
            r == Curve::Step,
    {
        Curve::Step
    }
}

/// Lower-case image of an ASCII byte.
pub open spec fn spec_to_lower(b: u8) -> u8 {
    if ('A' as u8) <= b && b <= ('Z' as u8) {
        (b + 32) as u8
    } else {
        b
    }
}

/// Bytes of a curve name, lower-cased byte by byte.
pub open spec fn spec_lower_bytes(s: Seq<u8>) -> Seq<u8> {
    s.map_values(|b: u8| spec_to_lower(b))
}

impl Curve {
    /// The curve function on a micro-scaled argument, after clamping the
    /// argument into `[0, MICRO]`.
    pub open spec fn spec_apply(self, t: int) -> int {
        let tc = if t < 0 {
            0
        } else if t > MICRO {
            MICRO as int
        } else {
            t
        };
        match self {
            Curve::Step => if tc == MICRO { MICRO as int } else { 0 },
            Curve::Linear => tc,
            Curve::Smooth => (3 * tc * tc * MICRO - 2 * tc * tc * tc) / ((MICRO * MICRO) as int),
        }
    }

    /// Apply the curve to a normalized position `t` in micro-units of 1.0.
    /// Arguments above `MICRO` are clamped (the scale carries no negatives).
    pub fn apply(self, t: u64) -> (r: u64)
        ensures
            r == self.spec_apply(t as int),
            r <= MICRO,
    {
        let tc: u64 = if t > MICRO { MICRO } else { t };
        match self {
            Curve::Step => if tc == MICRO { MICRO } else { 0 },
            Curve::Linear => tc,
            Curve::Smooth => {
                assert(tc * tc <= MICRO * MICRO) by (nonlinear_arith)
                    requires tc <= MICRO;
                let sq: u64 = tc * tc;
                assert(sq * MICRO <= MICRO * MICRO * MICRO && sq * tc <= MICRO * MICRO * MICRO)
                    by (nonlinear_arith)
                    requires sq <= MICRO * MICRO, tc <= MICRO;
                let rise: u64 = 3 * (sq * MICRO);
                let fall: u64 = 2 * (sq * tc);
                assert(fall <= rise && rise - fall == 3 * tc * tc * MICRO - 2 * tc * tc * tc)
                    by (nonlinear_arith)
                    requires
                        sq == tc * tc,
                        rise == 3 * (sq * MICRO),
                        fall == 2 * (sq * tc),
                        tc <= MICRO;
                let num: u64 = rise - fall;
                assert(num <= MICRO * MICRO * MICRO) by (nonlinear_arith)
                    requires
                        num == 3 * tc * tc * MICRO - 2 * tc * tc * tc,
                        tc <= MICRO;
                let r: u64 = num / (MICRO * MICRO);
                assert(r <= MICRO) by (nonlinear_arith)
                    requires
                        num <= MICRO * MICRO * MICRO,
                        r == num as int / (MICRO as int * MICRO as int),
                        MICRO == 1000000u64;
                r
            },
        }
    }

    /// Which curve a (case-insensitive) name denotes, if any.
    pub open spec fn spec_parse(s: Seq<u8>) -> Option<Curve> {
        let low = spec_lower_bytes(s);
        if low == seq!['s' as u8, 't' as u8, 'e' as u8, 'p' as u8] {
            Some(Curve::Step)
        } else if low == seq!['l' as u8, 'i' as u8, 'n' as u8, 'e' as u8, 'a' as u8, 'r' as u8] {
            Some(Curve::Linear)
        } else if low == seq!['s' as u8, 'm' as u8, 'o' as u8, 'o' as u8, 't' as u8, 'h' as u8] {
            Some(Curve::Smooth)
        } else {
            None
        }
    }

    /// Parse a curve name from raw bytes, ignoring ASCII case.
    pub fn parse_bytes(s: &[u8]) -> (r: Option<Curve>)
        ensures
            r == Self::spec_parse(s@),
    {
        let n = s.len();
        let mut low: Vec<u8> = Vec::new();
        let mut i: usize = 0;
        while i < n
            invariant
                i <= n,
                n == s@.len(),
                low@ == spec_lower_bytes(s@).take(i as int),
            decreases n - i,
        {
            let b = s[i];
            let lb: u8 = if ('A' as u8) <= b && b <= ('Z' as u8) { b + 32 } else { b };
            low.push(lb);
            assert(low@ =~= spec_lower_bytes(s@).take(i + 1));
            i = i + 1;
        }
        assert(low@ =~= spec_lower_bytes(s@));

        if eq_bytes(&low, &['s' as u8, 't' as u8, 'e' as u8, 'p' as u8]) {
            Some(Curve::Step)
        } else if eq_bytes(&low, &['l' as u8, 'i' as u8, 'n' as u8, 'e' as u8, 'a' as u8, 'r' as u8]) {
            Some(Curve::Linear)
        } else if eq_bytes(&low, &['s' as u8, 'm' as u8, 'o' as u8, 'o' as u8, 't' as u8, 'h' as u8]) {
            Some(Curve::Smooth)
        } else {
            assert(seq!['s' as u8, 't' as u8, 'e' as u8, 'p' as u8] =~= ['s' as u8, 't' as u8, 'e' as u8, 'p' as u8]@);
            assert(seq!['l' as u8, 'i' as u8, 'n' as u8, 'e' as u8, 'a' as u8, 'r' as u8] =~= ['l' as u8, 'i' as u8, 'n' as u8, 'e' as u8, 'a' as u8, 'r' as u8]@);
            assert(seq!['s' as u8, 'm' as u8, 'o' as u8, 'o' as u8, 't' as u8, 'h' as u8] =~= ['s' as u8, 'm' as u8, 'o' as u8, 'o' as u8, 't' as u8, 'h' as u8]@);
            None
        }
    }

    /// Parse a curve name, ignoring ASCII case.
    pub fn parse(s: &str) -> (r: Option<Curve>)
        ensures
            r == Self::spec_parse(s.spec_bytes()),
    {
        Self::parse_bytes(s.as_bytes())
    }

    /// The name a curve is written back with; `Step` is the default and is
    /// never written.
    pub fn to_str(self) -> (r: Option<&'static str>)
        ensures
            self == Curve::Step ==> r is None,
            self == Curve::Linear ==> r is Some && r->0@ == "linear"@,
            self == Curve::Smooth ==> r is Some && r->0@ == "smooth"@,
    {
        match self {
            Curve::Step => None,
            Curve::Linear => Some("linear"),
            Curve::Smooth => Some("smooth"),
        }
    }
}

} // verus!
