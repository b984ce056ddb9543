use vstd::prelude::*;

verus! {

/// Fixed-point scale for parameters, times and unit fractions: one unit
/// (one second, one hertz, a fraction of 1.0) is `MICRO` micro-units.
pub const MICRO: u64 = 1_000_000;

/// Fixed-point scale for oscillator phases: one full cycle is `NANO`
/// nano-cycles, so a phase accumulator always lies in `[0, NANO)`.
pub const NANO: u64 = 1_000_000_000;

/// Largest numeric value (in micro-units) a program line may carry:
/// one million units. Larger values are rejected at parse time so that
/// all downstream arithmetic stays within `u64`.
pub const NUM_MAX: u64 = 1_000_000_000_000;

/// Convex combination `(a*(den-num) + b*num) / den`, the integer form of
/// linear interpolation from `a` to `b` by the fraction `num/den`. Exact at
/// both endpoints and always within `[min(a,b), max(a,b)]`.
pub open spec fn spec_blend(a: int, b: int, num: int, den: int) -> int {
    (a * (den - num) + b * num) / den
}

/// The convex combination lies between its endpoints.
pub proof fn lemma_spec_blend_range(a: int, b: int, num: int, den: int)
    requires
        0 < den,
        0 <= num <= den,
        0 <= a,
        0 <= b,
    ensures
        a <= b ==> a <= spec_blend(a, b, num, den) <= b,
        b <= a ==> b <= spec_blend(a, b, num, den) <= a,
{
    let nm = a * (den - num) + b * num;
    let lo: int = if a <= b { a } else { b };
    let hi: int = if a <= b { b } else { a };
    assert(lo * den <= nm <= hi * den) by (nonlinear_arith)
        requires
            num <= den,
            0 <= num,
            nm == a * (den - num) + b * num,
            lo == if a <= b { a } else { b },
            hi == if a <= b { b } else { a };
    vstd::arithmetic::div_mod::lemma_div_is_ordered(lo * den, nm, den);
    vstd::arithmetic::div_mod::lemma_div_is_ordered(nm, hi * den, den);
    vstd::arithmetic::div_mod::lemma_div_by_multiple(lo, den);
    vstd::arithmetic::div_mod::lemma_div_by_multiple(hi, den);
}

/// Interpolate between `a` and `b` by the fraction `num/den`.
pub fn blend64(a: u64, b: u64, num: u64, den: u64) -> (r: u64)
    requires
        0 < den <= 16_777_216,
        num <= den,
        a <= NUM_MAX,
        b <= NUM_MAX,
    ensures
        r == spec_blend(a as int, b as int, num as int, den as int),
        a <= b ==> a <= r <= b,
        b <= a ==> b <= r <= a,
{
    assert(a * (den - num) + b * num <= NUM_MAX * den) by (nonlinear_arith)
        requires num <= den, a <= NUM_MAX, b <= NUM_MAX;
    assert(NUM_MAX * den <= NUM_MAX * 16_777_216) by (nonlinear_arith)
        requires den <= 16_777_216;
    let r: u64 = (a * (den - num) + b * num) / den;
    proof {
        let nm = a * (den - num) + b * num;
        let lo: int = if a <= b { a as int } else { b as int };
        let hi: int = if a <= b { b as int } else { a as int };
        assert(lo * den <= nm <= hi * den) by (nonlinear_arith)
            requires
                num <= den,
                nm == a * (den - num) + b * num,
                lo == if a <= b { a as int } else { b as int },
                hi == if a <= b { b as int } else { a as int };
        vstd::arithmetic::div_mod::lemma_div_is_ordered(lo * den, nm, den as int);
        vstd::arithmetic::div_mod::lemma_div_is_ordered(nm, hi * den, den as int);
        vstd::arithmetic::div_mod::lemma_div_by_multiple(lo, den as int);
        vstd::arithmetic::div_mod::lemma_div_by_multiple(hi, den as int);
    }
    r
}

} // verus!
