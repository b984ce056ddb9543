use vstd::prelude::*;

use crate::text::{
    all_digits, digits_val, find_byte, frac_val6, is_digit, is_ws, lemma_digits_val_bound,
    lemma_find_byte, lemma_find_byte_none, lemma_pow10_pos, pow10,
    spec_parse_number,
};
use crate::params::Params;
use crate::program::{
    kw_binaural, kw_duty, kw_freq, kw_headless, kw_off, kw_on, kw_tone, kw_vol, spec_line_tokens, spec_token,
    Keyframe, ParseErrorKind, Settings,
};
use crate::curve::Curve;
use crate::units::{MICRO, NUM_MAX};

verus! {

/// Decimal digits of `n`, most significant first.
pub open spec fn spec_digits(n: int) -> Seq<u8>
    decreases n,
{
    if n < 10 {
        seq![(('0' as u8) + n) as u8]
    } else {
        spec_digits(n / 10).push((('0' as u8) + n % 10) as u8)
    }
}

/// A run of `k` zero digits.
pub open spec fn zero_digits(k: nat) -> Seq<u8> {
    Seq::new(k, |i: int| '0' as u8)
}

/// Digits with their trailing zeros removed.
pub open spec fn strip_zeros(s: Seq<u8>) -> Seq<u8>
    decreases s.len(),
{
    if s.len() > 0 && s.last() == ('0' as u8) {
        strip_zeros(s.drop_last())
    } else {
        s
    }
}

/// The digits of `n` read back as a number give `n`.
pub proof fn lemma_digits_roundtrip(n: int)
    requires
        0 <= n,
    ensures
        all_digits(spec_digits(n)),
        digits_val(spec_digits(n)) == n,
        spec_digits(n).len() >= 1,
    decreases n,
{
    if n < 10 {
        reveal_with_fuel(digits_val, 3);
        assert((('0' as u8) + n) as u8 == 48 + n);
        assert(seq![(('0' as u8) + n) as u8].drop_last() =~= Seq::<u8>::empty());
        assert(digits_val(seq![(('0' as u8) + n) as u8]) == n);
    } else {
        lemma_digits_roundtrip(n / 10);
        vstd::arithmetic::div_mod::lemma_fundamental_div_mod(n, 10);
        assert(0 <= n % 10 < 10);
        assert((('0' as u8) + n % 10) as u8 == 48 + n % 10);
        assert(spec_digits(n).drop_last() =~= spec_digits(n / 10));
        assert(spec_digits(n).last() == (('0' as u8) + n % 10) as u8);
    }
}

/// Digit counts are bounded by powers of ten.
pub proof fn lemma_digits_len(n: int, k: nat)
    requires
        0 <= n,
        n < pow10(k),
        k >= 1,
    ensures
        spec_digits(n).len() <= k,
    decreases n,
{
    if n >= 10 {
        reveal_with_fuel(pow10, 3);
        if k == 1 {
            assert(pow10(1nat) == 10);
        }
        assert(pow10(k) == 10 * pow10((k - 1) as nat));
        vstd::arithmetic::div_mod::lemma_fundamental_div_mod(n, 10);
        assert(n / 10 < pow10((k - 1) as nat)) by (nonlinear_arith)
            requires
                n < 10 * pow10((k - 1) as nat),
                n == 10 * (n / 10) + n % 10,
                0 <= n % 10 < 10;
        lemma_pow10_pos((k - 1) as nat);
        lemma_digits_len(n / 10, (k - 1) as nat);
    }
}

/// Prepending zero digits does not change a number's value.
pub proof fn lemma_leading_zeros(z: nat, s: Seq<u8>)
    ensures
        digits_val(zero_digits(z) + s) == digits_val(s),
    decreases s.len(),
{
    if s.len() == 0 {
        assert(zero_digits(z) + s =~= zero_digits(z));
        lemma_zeros_val(z);
    } else {
        assert((zero_digits(z) + s).drop_last() =~= zero_digits(z) + s.drop_last());
        assert((zero_digits(z) + s).last() == s.last());
        lemma_leading_zeros(z, s.drop_last());
    }
}

/// A run of zero digits reads as zero.
pub proof fn lemma_zeros_val(z: nat)
    ensures
        digits_val(zero_digits(z)) == 0,
        all_digits(zero_digits(z)),
    decreases z,
{
    if z > 0 {
        assert(zero_digits(z).drop_last() =~= zero_digits((z - 1) as nat));
        lemma_zeros_val((z - 1) as nat);
    }
}

/// Appending `k` zero digits multiplies a number's value by ten to the `k`.
pub proof fn lemma_trailing_zeros(s: Seq<u8>, k: nat)
    ensures
        digits_val(s + zero_digits(k)) == digits_val(s) * pow10(k),
    decreases k,
{
    if k == 0 {
        assert(s + zero_digits(0) =~= s);
    } else {
        lemma_trailing_zeros(s, (k - 1) as nat);
        assert((s + zero_digits(k)).drop_last() =~= s + zero_digits((k - 1) as nat));
        assert((s + zero_digits(k)).last() == ('0' as u8));
        assert(digits_val(s) * pow10((k - 1) as nat) * 10 == digits_val(s) * pow10(k))
            by (nonlinear_arith)
            requires
                pow10(k) == 10 * pow10((k - 1) as nat);
    }
}

/// Stripping trailing zeros only divides the value by the zeros removed:
/// the stripped digits extended by that many zeros are the original.
pub proof fn lemma_strip_zeros(s: Seq<u8>)
    ensures
        strip_zeros(s).len() <= s.len(),
        s =~= strip_zeros(s) + zero_digits((s.len() - strip_zeros(s).len()) as nat),
    decreases s.len(),
{
    if s.len() > 0 && s.last() == ('0' as u8) {
        lemma_strip_zeros(s.drop_last());
        let t = strip_zeros(s);
        let k = (s.len() - t.len()) as nat;
        assert(s.drop_last() =~= t + zero_digits((k - 1) as nat));
        assert(t + zero_digits(k) =~= (t + zero_digits((k - 1) as nat)).push('0' as u8));
        assert(s =~= s.drop_last().push(s.last()));
    } else {
        assert(s =~= s + zero_digits(0));
    }
}

/// Append the decimal digits of `n`.
pub fn push_digits(out: &mut Vec<u8>, n: u64)
    ensures
        final(out)@ == old(out)@ + spec_digits(n as int),
    decreases n,
{
    if n < 10 {
        out.push('0' as u8 + (n as u8));
        proof {
            assert(final(out)@ =~= old(out)@ + spec_digits(n as int));
        }
    } else {
        push_digits(out, n / 10);
        out.push('0' as u8 + ((n % 10) as u8));
        proof {
            assert(final(out)@ =~= old(out)@ + spec_digits(n as int));
        }
    }
}

/// The text a micro-unit value is written back as: the integer part, then
/// a fractional part when one exists, with trailing zeros dropped.
pub open spec fn spec_format_micro(v: int) -> Seq<u8> {
    let ip = spec_digits(v / (MICRO as int));
    if v % (MICRO as int) == 0 {
        ip
    } else {
        let fd = spec_digits(v % (MICRO as int));
        let padded = zero_digits((6 - fd.len()) as nat) + fd;
        ip + seq!['.' as u8] + strip_zeros(padded)
    }
}

/// No digit run contains a dot, so searching one finds nothing.
pub proof fn lemma_digits_no_byte(s: Seq<u8>, b: u8)
    requires
        all_digits(s),
        !is_digit(b),
    ensures
        find_byte(s, b) == -1,
        forall|j: int| 0 <= j < s.len() ==> s[j] != b,
{
    assert(forall|j: int| 0 <= j < s.len() ==> s[j] != b);
    lemma_find_byte_none(s, b);
}

/// Formatted micro-unit values parse back to themselves.
pub proof fn lemma_parse_format_micro(v: int)
    requires
        0 <= v <= NUM_MAX,
    ensures
        spec_parse_number(spec_format_micro(v)) == Some((v as u64)),
        all_digits(spec_format_micro(v)) || spec_format_micro(v)[spec_digits(v / (MICRO as int)).len() as int]
            == ('.' as u8),
        spec_format_micro(v).len() >= 1,
        forall|j: int|
            0 <= j < spec_format_micro(v).len() ==> (is_digit(#[trigger] spec_format_micro(v)[j])
                || spec_format_micro(v)[j] == ('.' as u8)),
{
    let ip = spec_digits(v / (MICRO as int));
    lemma_digits_roundtrip(v / (MICRO as int));
    vstd::arithmetic::div_mod::lemma_fundamental_div_mod(v, MICRO as int);
    if v % (MICRO as int) == 0 {
        lemma_digits_no_byte(ip, '.' as u8);
        assert(digits_val(ip) * MICRO == v) by (nonlinear_arith)
            requires
                digits_val(ip) == v / (MICRO as int),
                v == (MICRO as int) * (v / (MICRO as int)) + v % (MICRO as int),
                v % (MICRO as int) == 0;
        assert(spec_parse_number(spec_format_micro(v)) == Some((v as u64)));
    } else {
        let fr = v % (MICRO as int);
        let fd = spec_digits(fr);
        lemma_digits_roundtrip(fr);
        assert(fr < pow10(6nat)) by {
            vstd::arithmetic::div_mod::lemma_mod_division_less_than_divisor(v, MICRO as int);
            assert(pow10(6nat) == 1_000_000) by {
                reveal_with_fuel(pow10, 8);
            };
        };
        lemma_digits_len(fr, 6nat);
        let padded = zero_digits((6 - fd.len()) as nat) + fd;
        lemma_zeros_val((6 - fd.len()) as nat);
        lemma_leading_zeros((6 - fd.len()) as nat, fd);
        assert(padded.len() == 6);
        let stripped = strip_zeros(padded);
        lemma_strip_zeros(padded);
        let kz = (padded.len() - stripped.len()) as nat;
        lemma_trailing_zeros(stripped, kz);
        // stripped digits scaled back up give the fraction's value
        assert(all_digits(padded));
        assert(all_digits(stripped)) by {
            assert(forall|j: int| 0 <= j < stripped.len() ==> stripped[j] == padded[j]);
        };
        assert(digits_val(stripped) * pow10(kz) == fr);
        let s = spec_format_micro(v);
        assert(s =~= ip + seq!['.' as u8] + stripped);
        // the dot splits the text at the integer digits
        lemma_digits_no_byte(ip, '.' as u8);
        lemma_digits_no_byte(stripped, '.' as u8);
        assert(forall|j: int| 0 <= j < ip.len() ==> s[j] == ip[j] && s[j] != ('.' as u8));
        assert(s[ip.len() as int] == ('.' as u8));
        lemma_find_byte(s, '.' as u8, ip.len() as int);
        assert(s.take(ip.len() as int) =~= ip);
        assert(s.skip(ip.len() as int + 1) =~= stripped);
        // the fraction's six-digit value
        assert(frac_val6(stripped) == fr) by {
            if stripped.len() >= 6 {
                assert(stripped.len() == 6 && kz == 0);
                assert(stripped.take(6) =~= stripped);
                assert(pow10(0nat) == 1);
                assert(digits_val(stripped) * 1 == digits_val(stripped)) by (nonlinear_arith);
            } else {
                assert(kz == 6 - stripped.len());
            }
        };
        lemma_digits_val_bound(ip);
        assert(digits_val(ip) * MICRO + frac_val6(stripped) == v) by (nonlinear_arith)
            requires
                digits_val(ip) == v / (MICRO as int),
                frac_val6(stripped) == v % (MICRO as int),
                v == (MICRO as int) * ((v as int) / (MICRO as int)) + (v as int) % (MICRO as int);
        assert(spec_parse_number(s) == Some((v as u64)));
    }
}

/// Append a micro-unit value in its written form.
#[verifier::rlimit(60)]
#[verifier::loop_isolation(false)]
pub fn push_micro(out: &mut Vec<u8>, v: u64)
    requires
        v <= NUM_MAX,
    ensures
        final(out)@ == old(out)@ + spec_format_micro(v as int),
{
    let ghost ip = spec_digits((v / MICRO) as int);
    push_digits(out, v / MICRO);
    let fr = v % MICRO;
    if fr == 0 {
        proof {
            assert(out@ =~= old(out)@ + spec_format_micro(v as int));
        }
        return;
    }
    out.push('.' as u8);
    let ghost head = old(out)@ + ip + seq!['.' as u8];
    proof {
        assert(out@ =~= head);
    }
    let mut fd: Vec<u8> = Vec::new();
    push_digits(&mut fd, fr);
    proof {
        lemma_digits_roundtrip(fr as int);
        assert(fr < pow10(6nat)) by {
            reveal_with_fuel(pow10, 8);
        };
        lemma_digits_len(fr as int, 6nat);
        assert(fd@ == spec_digits(fr as int));
    }
    let nd = fd.len();
    let z: usize = 6 - nd;
    // how many digits stay once trailing zeros go
    proof {
        assert(fd@.take(nd as int) =~= fd@);
    }
    let mut keep: usize = nd;
    while keep > 0 && fd[keep - 1] == ('0' as u8)
        invariant
            keep <= nd,
            strip_zeros(fd@) == strip_zeros(fd@.take(keep as int)),
        decreases keep,
    {
        proof {
            assert(fd@.take(keep - 1) =~= fd@.take(keep as int).drop_last());
        }
        keep = keep - 1;
    }
    proof {
        assert(strip_zeros(fd@.take(keep as int)) =~= fd@.take(keep as int));
        if keep == 0 {
            lemma_strip_zeros(fd@);
            assert(fd@ =~= zero_digits(fd@.len()));
            lemma_zeros_val(fd@.len());
            assert(digits_val(fd@) == 0);
        }
        assert(keep > 0);
        assert(forall|j: int| keep <= j < nd ==> fd@[j] == ('0' as u8)) by {
            lemma_strip_zeros(fd@);
            assert(fd@ =~= strip_zeros(fd@) + zero_digits((fd@.len() - strip_zeros(fd@).len()) as nat));
            assert(strip_zeros(fd@) =~= fd@.take(keep as int));
        };
    }
    // pad with leading zeros up to six fractional digits
    let mut pushed: usize = 0;
    while pushed < z
        invariant
            pushed <= z,
            out@ == head + zero_digits(pushed as nat),
        decreases z - pushed,
    {
        out.push('0' as u8);
        proof {
            assert(zero_digits((pushed + 1) as nat) =~= zero_digits(pushed as nat).push('0' as u8));
            assert(out@ =~= head + zero_digits((pushed + 1) as nat));
        }
        pushed = pushed + 1;
    }
    // then the kept digits
    let mut di: usize = 0;
    while di < keep
        invariant
            di <= keep <= nd,
            nd == fd@.len(),
            out@ == head + zero_digits(z as nat) + fd@.take(di as int),
        decreases keep - di,
    {
        out.push(fd[di]);
        proof {
            assert(fd@.take(di + 1) =~= fd@.take(di as int).push(fd@[di as int]));
            assert(out@ =~= head + zero_digits(z as nat) + fd@.take(di + 1));
        }
        di = di + 1;
    }
    proof {
        let fdv = spec_digits((v as int) % (MICRO as int));
        let padded = zero_digits((6 - fdv.len()) as nat) + fdv;
        assert(fdv == fd@);
        lemma_strip_concat(zero_digits(z as nat), fdv, keep as int);
        assert(zero_digits(z as nat) + fd@.take(keep as int) =~= strip_zeros(padded));
        assert(out@ =~= old(out)@ + spec_format_micro(v as int));
    }
}

/// Stripping a padded run: when the kept prefix of the digits ends in a
/// non-zero digit and the rest are zeros, the strip of the whole is the
/// zeros plus that prefix.
pub proof fn lemma_strip_concat(z: Seq<u8>, s: Seq<u8>, keep: int)
    requires
        0 <= keep <= s.len(),
        forall|j: int| keep <= j < s.len() ==> s[j] == ('0' as u8),
        keep == 0 || s[keep - 1] != ('0' as u8),
        forall|j: int| 0 <= j < z.len() ==> z[j] == ('0' as u8),
    ensures
        strip_zeros(z + s) == if keep == 0 {
            Seq::<u8>::empty()
        } else {
            z + s.take(keep)
        },
    decreases z.len() + s.len(),
{
    let w = z + s;
    if s.len() > keep {
        // last byte is a padding zero
        assert(w.last() == s.last());
        assert(s.last() == ('0' as u8));
        assert(w.drop_last() =~= z + s.drop_last());
        assert(forall|j: int| keep <= j < s.drop_last().len() ==> s.drop_last()[j] == ('0' as u8));
        assert(keep == 0 || s.drop_last()[keep - 1] != ('0' as u8));
        lemma_strip_concat(z, s.drop_last(), keep);
        assert(s.drop_last().take(keep) =~= s.take(keep));
    } else {
        // s == s.take(keep)
        if keep == 0 {
            // w is all zeros
            assert(s =~= Seq::<u8>::empty());
            lemma_strip_all_zeros(z);
            assert(w =~= z);
        } else {
            assert(w.len() > 0 && w.last() == s[keep - 1]);
            assert(w.last() != ('0' as u8));
            assert(strip_zeros(w) == w);
            assert(w =~= z + s.take(keep));
        }
    }
}

/// A run of zeros strips to nothing.
pub proof fn lemma_strip_all_zeros(z: Seq<u8>)
    requires
        forall|j: int| 0 <= j < z.len() ==> z[j] == ('0' as u8),
    ensures
        strip_zeros(z) =~= Seq::<u8>::empty(),
    decreases z.len(),
{
    if z.len() > 0 {
        lemma_strip_all_zeros(z.drop_last());
    }
}


/// A byte that may stand inside a written number: a digit or a dot.
pub open spec fn is_numlike(b: u8) -> bool {
    is_digit(b) || b == ('.' as u8)
}

/// Every byte of a formatted micro-unit value is a digit or a dot.
pub proof fn lemma_format_micro_bytes(v: int)
    requires
        0 <= v <= NUM_MAX,
    ensures
        forall|j: int|
            0 <= j < spec_format_micro(v).len() ==> is_numlike(#[trigger] spec_format_micro(v)[j]),
        spec_format_micro(v).len() >= 1,
{
    lemma_parse_format_micro(v);
}

/// A number text prefixed with a zero digit reads the same.
pub proof fn lemma_parse_number_pad0(s: Seq<u8>)
    requires
        spec_parse_number(s) is Some,
    ensures
        spec_parse_number(seq!['0' as u8] + s) == spec_parse_number(s),
{
    let z = seq!['0' as u8] + s;
    let d = find_byte(s, '.' as u8);
    if d < 0 {
        lemma_digits_no_byte(s, '.' as u8);
        lemma_find_byte_none(z, '.' as u8);
        assert(z =~= zero_digits(1) + s);
        lemma_leading_zeros(1, s);
        assert(all_digits(z));
    } else {
        lemma_find_byte_char(s, '.' as u8);
        assert(0 <= d < s.len());
        assert(s[d] == ('.' as u8));
        assert(forall|j: int| 0 <= j < z.len() - 1 ==> #[trigger] z[j + 1] == s[j]);
        assert(z[0] == ('0' as u8));
        assert forall|j: int| 0 <= j < d + 1 implies z[j] != ('.' as u8) by {
            if j >= 1 {
                assert(z[j] == s[j - 1]);
            }
        }
        assert(z[d + 1] == s[d]);
        lemma_find_byte(z, '.' as u8, d + 1);
        assert(z.take(d + 1) =~= zero_digits(1) + s.take(d));
        assert(z.skip(d + 2) =~= s.skip(d + 1));
        lemma_leading_zeros(1, s.take(d));
        assert(all_digits(zero_digits(1) + s.take(d))) by {
            assert(forall|j: int|
                0 <= j < (zero_digits(1) + s.take(d)).len() ==> is_digit(
                    #[trigger] (zero_digits(1) + s.take(d))[j],
                ));
        };
    }
}

/// Where `find_byte` points, the byte stands, and none before it.
pub proof fn lemma_find_byte_char(s: Seq<u8>, b: u8)
    ensures
        find_byte(s, b) >= 0 ==> 0 <= find_byte(s, b) < s.len() && s[find_byte(s, b)] == b && (
        forall|j: int| 0 <= j < find_byte(s, b) ==> s[j] != b),
        find_byte(s, b) < 0 ==> forall|j: int| 0 <= j < s.len() ==> s[j] != b,
    decreases s.len(),
{
    if s.len() > 0 && s[0] != b {
        lemma_find_byte_char(s.skip(1), b);
        assert(forall|j: int| 0 <= j < s.skip(1).len() ==> #[trigger] s.skip(1)[j] == s[j + 1]);
        let r = find_byte(s.skip(1), b);
        if r >= 0 {
            assert(s[r + 1] == s.skip(1)[r]);
            assert forall|j: int| 0 <= j < r + 1 implies s[j] != b by {
                if j >= 1 {
                    assert(s[j] == s.skip(1)[j - 1]);
                }
            }
        } else {
            assert forall|j: int| 0 <= j < s.len() implies s[j] != b by {
                if j >= 1 {
                    assert(s[j] == s.skip(1)[j - 1]);
                }
            }
        }
    }
}

/// An integer written with two-digit zero padding.
pub open spec fn spec_pad0_int(v: int) -> Seq<u8> {
    if v < 10 {
        seq!['0' as u8] + spec_digits(v)
    } else {
        spec_digits(v)
    }
}

/// The seconds field: two-digit padded whole seconds, then the fractional
/// microseconds when any.
pub open spec fn spec_format_sec(v: int) -> Seq<u8> {
    if v / (MICRO as int) < 10 {
        seq!['0' as u8] + spec_format_micro(v)
    } else {
        spec_format_micro(v)
    }
}

/// The padded seconds field reads back as its value.
pub proof fn lemma_parse_format_sec(v: int)
    requires
        0 <= v <= NUM_MAX,
    ensures
        spec_parse_number(spec_format_sec(v)) == Some((v as u64)),
        forall|j: int|
            0 <= j < spec_format_sec(v).len() ==> is_numlike(#[trigger] spec_format_sec(v)[j]),
        spec_format_sec(v).len() >= 1,
{
    lemma_parse_format_micro(v);
    if v / (MICRO as int) < 10 {
        lemma_parse_number_pad0(spec_format_micro(v));
        assert(forall|j: int|
            1 <= j < spec_format_sec(v).len() ==> spec_format_sec(v)[j] == spec_format_micro(v)[j
                - 1]);
        assert(is_numlike(spec_format_sec(v)[0]));
    }
}

/// A padded integer field reads back as its micro-unit value.
pub proof fn lemma_parse_pad0_int(v: int)
    requires
        0 <= v,
        v * MICRO <= NUM_MAX,
    ensures
        spec_parse_number(spec_pad0_int(v)) == Some((v * MICRO) as u64),
        forall|j: int|
            0 <= j < spec_pad0_int(v).len() ==> is_digit(#[trigger] spec_pad0_int(v)[j]),
        spec_pad0_int(v).len() >= 1,
{
    lemma_digits_roundtrip(v);
    lemma_digits_no_byte(spec_digits(v), '.' as u8);
    assert(spec_parse_number(spec_digits(v)) == Some((v * MICRO) as u64)) by {
        assert(digits_val(spec_digits(v)) * MICRO == v * MICRO);
    };
    if v < 10 {
        lemma_parse_number_pad0(spec_digits(v));
        assert(spec_pad0_int(v) =~= zero_digits(1) + spec_digits(v));
        lemma_zeros_val(1);
        assert(forall|j: int|
            0 <= j < spec_pad0_int(v).len() ==> is_digit(#[trigger] spec_pad0_int(v)[j]));
    }
}

/// The text a timestamp is written back as: `MM:SS` under an hour, else
/// `HH:MM:SS`, with two-digit padding and exact fractional seconds.
pub open spec fn spec_format_timestamp(t: int) -> Seq<u8> {
    let sv = t % 60_000_000;
    if t < 3_600_000_000 {
        let m = t / 60_000_000;
        spec_pad0_int(m) + seq![':' as u8] + spec_format_sec(sv)
    } else {
        let h = t / 3_600_000_000;
        let mm = (t / 60_000_000) % 60;
        spec_pad0_int(h) + seq![':' as u8] + spec_pad0_int(mm) + seq![':' as u8]
            + spec_format_sec(sv)
    }
}

/// Formatted timestamps parse back to themselves.
pub proof fn lemma_parse_format_timestamp(t: int)
    requires
        0 <= t <= crate::text::TIME_MAX,
    ensures
        crate::text::spec_parse_timestamp(spec_format_timestamp(t)) == Some(t as u64),
        forall|j: int|
            0 <= j < spec_format_timestamp(t).len() ==> (is_numlike(
                #[trigger] spec_format_timestamp(t)[j],
            ) || spec_format_timestamp(t)[j] == (':' as u8)),
        spec_format_timestamp(t).len() >= 1,
{
    let sv = t % 60_000_000;
    vstd::arithmetic::div_mod::lemma_fundamental_div_mod(t, 60_000_000);
    vstd::arithmetic::div_mod::lemma_mod_division_less_than_divisor(t, 60_000_000);
    lemma_parse_format_sec(sv);
    let fs = spec_format_sec(sv);
    lemma_numlike_no_colon(fs);
    if t < 3_600_000_000 {
        let m = t / 60_000_000;
        assert(m < 60) by (nonlinear_arith)
            requires
                0 <= t < 3_600_000_000,
                m == t / 60_000_000,
                t == 60_000_000 * m + sv,
                0 <= sv < 60_000_000;
        lemma_parse_pad0_int(m);
        let fm = spec_pad0_int(m);
        let w = spec_format_timestamp(t);
        assert(w =~= fm + seq![':' as u8] + fs);
        assert(forall|j: int| 0 <= j < fm.len() ==> w[j] == fm[j] && w[j] != (':' as u8));
        assert(w[fm.len() as int] == (':' as u8));
        crate::text::lemma_find_byte(w, ':' as u8, fm.len() as int);
        let rest = w.skip(fm.len() as int + 1);
        assert(rest =~= fs);
        crate::text::lemma_find_byte_none(rest, ':' as u8);
        assert(w.take(fm.len() as int) =~= fm);
        assert(m * MICRO * 60 + sv == t) by (nonlinear_arith)
            requires
                t == 60_000_000 * m + sv,
                MICRO == 1_000_000u64;
    } else {
        let h = t / 3_600_000_000;
        let mm = (t / 60_000_000) % 60;
        vstd::arithmetic::div_mod::lemma_fundamental_div_mod(t / 60_000_000, 60);
        vstd::arithmetic::div_mod::lemma_mod_division_less_than_divisor(t / 60_000_000, 60);
        vstd::arithmetic::div_mod::lemma_div_denominator(t, 60_000_000, 60);
        assert(h == (t / 60_000_000) / 60);
        assert(h <= 1_000_000) by (nonlinear_arith)
            requires
                t <= 3_600_000_000_000_000i64,
                h == t / 3_600_000_000,
                t == 3_600_000_000 * (t / 3_600_000_000) + t % 3_600_000_000,
                0 <= t % 3_600_000_000;
        lemma_parse_pad0_int(h);
        lemma_parse_pad0_int(mm);
        let fh = spec_pad0_int(h);
        let fm = spec_pad0_int(mm);
        let w = spec_format_timestamp(t);
        assert(w =~= fh + seq![':' as u8] + fm + seq![':' as u8] + fs);
        assert(forall|j: int| 0 <= j < fh.len() ==> w[j] == fh[j] && w[j] != (':' as u8));
        assert(w[fh.len() as int] == (':' as u8));
        crate::text::lemma_find_byte(w, ':' as u8, fh.len() as int);
        let rest = w.skip(fh.len() as int + 1);
        assert(rest =~= fm + seq![':' as u8] + fs);
        assert(forall|j: int| 0 <= j < fm.len() ==> rest[j] == fm[j] && rest[j] != (':' as u8));
        assert(rest[fm.len() as int] == (':' as u8));
        crate::text::lemma_find_byte(rest, ':' as u8, fm.len() as int);
        let rest2 = rest.skip(fm.len() as int + 1);
        assert(rest2 =~= fs);
        crate::text::lemma_find_byte_none(rest2, ':' as u8);
        assert(w.take(fh.len() as int) =~= fh);
        assert(rest.take(fm.len() as int) =~= fm);
        // h hours + mm minutes + the seconds field give back t
        assert(h * MICRO * 3600 + mm * MICRO * 60 + sv == t) by (nonlinear_arith)
            requires
                t == 60_000_000 * (t / 60_000_000) + sv,
                t / 60_000_000 == 60 * h + mm,
                MICRO == 1_000_000u64;
    }
}

/// Digits and dots are not colons.
pub proof fn lemma_numlike_no_colon(s: Seq<u8>)
    requires
        forall|j: int| 0 <= j < s.len() ==> is_numlike(#[trigger] s[j]),
    ensures
        forall|j: int| 0 <= j < s.len() ==> s[j] != (':' as u8),
        crate::text::find_byte(s, ':' as u8) == -1,
{
    assert(forall|j: int| 0 <= j < s.len() ==> s[j] != (':' as u8));
    lemma_find_byte_none(s, ':' as u8);
}

/// Append a timestamp in its written form.
pub fn push_timestamp(out: &mut Vec<u8>, t: u64)
    requires
        t <= crate::text::TIME_MAX,
    ensures
        final(out)@ == old(out)@ + spec_format_timestamp(t as int),
{
    let sv: u64 = t % 60_000_000;
    if t < 3_600_000_000 {
        let m: u64 = t / 60_000_000;
        if m < 10 {
            out.push('0' as u8);
        }
        push_digits(out, m);
        out.push(':' as u8);
        push_sec(out, sv);
        proof {
            assert(out@ =~= old(out)@ + spec_format_timestamp(t as int));
        }
    } else {
        let h: u64 = t / 3_600_000_000;
        let mm: u64 = (t / 60_000_000) % 60;
        if h < 10 {
            out.push('0' as u8);
        }
        push_digits(out, h);
        out.push(':' as u8);
        if mm < 10 {
            out.push('0' as u8);
        }
        push_digits(out, mm);
        out.push(':' as u8);
        push_sec(out, sv);
        proof {
            assert(out@ =~= old(out)@ + spec_format_timestamp(t as int));
        }
    }
}

/// Append the two-digit padded seconds field.
fn push_sec(out: &mut Vec<u8>, v: u64)
    requires
        v <= NUM_MAX,
    ensures
        final(out)@ == old(out)@ + spec_format_sec(v as int),
{
    if v / MICRO < 10 {
        out.push('0' as u8);
    }
    push_micro(out, v);
    proof {
        assert(out@ =~= old(out)@ + spec_format_sec(v as int));
    }
}


/// Uppercase hex digit of a value below sixteen.
pub open spec fn spec_hex_digit(v: int) -> u8 {
    if v < 10 {
        (('0' as u8) + v) as u8
    } else {
        (('A' as u8) + (v - 10)) as u8
    }
}

/// The text a color is written back as: `#` and six uppercase hex digits.
pub open spec fn spec_format_color(c: crate::color::Color) -> Seq<u8> {
    seq![
        '#' as u8,
        spec_hex_digit(c.r as int / 16),
        spec_hex_digit(c.r as int % 16),
        spec_hex_digit(c.g as int / 16),
        spec_hex_digit(c.g as int % 16),
        spec_hex_digit(c.b as int / 16),
        spec_hex_digit(c.b as int % 16),
    ]
}

/// A hex digit reads back as its value.
pub proof fn lemma_hex_digit_val(v: int)
    requires
        0 <= v < 16,
    ensures
        crate::color::spec_hex_val(spec_hex_digit(v)) == Some(v as u8),
{
}

/// A formatted color parses back to itself with full alpha.
pub proof fn lemma_parse_format_color(c: crate::color::Color)
    ensures
        crate::color::spec_parse_color(spec_format_color(c)) == Some(
            crate::color::Color { r: c.r, g: c.g, b: c.b, a: 255 },
        ),
{
    let w = spec_format_color(c);
    let t = w.skip(1);
    assert(t.len() == 6);
    lemma_hex_pair(c.r as int);
    lemma_hex_pair(c.g as int);
    lemma_hex_pair(c.b as int);
    assert(t[0] == spec_hex_digit(c.r as int / 16) && t[1] == spec_hex_digit(c.r as int % 16));
    assert(t[2] == spec_hex_digit(c.g as int / 16) && t[3] == spec_hex_digit(c.g as int % 16));
    assert(t[4] == spec_hex_digit(c.b as int / 16) && t[5] == spec_hex_digit(c.b as int % 16));
}

/// Two hex digits recombine to the byte they came from.
pub proof fn lemma_hex_pair(v: int)
    requires
        0 <= v < 256,
    ensures
        crate::color::spec_hex_pair(spec_hex_digit(v / 16), spec_hex_digit(v % 16)) == Some(
            v as u8,
        ),
{
    vstd::arithmetic::div_mod::lemma_fundamental_div_mod(v, 16);
    lemma_hex_digit_val(v / 16);
    lemma_hex_digit_val(v % 16);
}

/// Append a hex digit.
fn push_hex_digit(out: &mut Vec<u8>, v: u8)
    requires
        v < 16,
    ensures
        final(out)@ == old(out)@.push(spec_hex_digit(v as int)),
{
    if v < 10 {
        out.push('0' as u8 + v);
    } else {
        out.push('A' as u8 + (v - 10));
    }
}

/// Append a color in its written form.
pub fn push_color(out: &mut Vec<u8>, c: crate::color::Color)
    ensures
        final(out)@ == old(out)@ + spec_format_color(c),
{
    out.push('#' as u8);
    push_hex_digit(out, c.r / 16);
    push_hex_digit(out, c.r % 16);
    push_hex_digit(out, c.g / 16);
    push_hex_digit(out, c.g % 16);
    push_hex_digit(out, c.b / 16);
    push_hex_digit(out, c.b % 16);
    proof {
        assert(out@ =~= old(out)@ + spec_format_color(c));
    }
}

/// Append literal bytes.
pub fn push_bytes(out: &mut Vec<u8>, bytes: &[u8])
    ensures
        final(out)@ == old(out)@ + bytes@,
{
    let n = bytes.len();
    let mut i: usize = 0;
    while i < n
        invariant
            i <= n,
            n == bytes@.len(),
            out@ == old(out)@ + bytes@.take(i as int),
        decreases n - i,
    {
        out.push(bytes[i]);
        proof {
            assert(out@ =~= old(out)@ + bytes@.take(i + 1));
        }
        i = i + 1;
    }
    proof {
        assert(out@ =~= old(out)@ + bytes@);
    }
}

/// Bytes a token may carry: anything but blank space and newlines.
pub open spec fn tok_ok(t: Seq<u8>) -> bool {
    forall|j: int| 0 <= j < t.len() ==> !is_ws(#[trigger] t[j]) && t[j] != 10
}

/// Appending a blank to a line closes any open token.
pub proof fn lemma_tok_push_ws(s: Seq<u8>)
    ensures
        crate::text::spec_tok_state(s.push(32)) == (crate::text::spec_tokens(s), false),
{
    assert(s.push(32).drop_last() =~= s);
}

/// Appending a whole token after a blank adds exactly that token.
pub proof fn lemma_tok_push_token(s: Seq<u8>, t: Seq<u8>)
    requires
        !crate::text::spec_tok_state(s).1,
        t.len() >= 1,
        tok_ok(t),
    ensures
        crate::text::spec_tok_state(s + t) == (crate::text::spec_tokens(s).push(t), true),
    decreases t.len(),
{
    if t.len() == 1 {
        assert((s + t).drop_last() =~= s);
        assert((s + t).last() == t[0]);
        assert(seq![t[0]] =~= t);
    } else {
        lemma_tok_push_token(s, t.drop_last());
        assert((s + t).drop_last() =~= s + t.drop_last());
        assert((s + t).last() == t.last());
        let pre = crate::text::spec_tok_state(s + t.drop_last());
        crate::text::lemma_tok_state_len(s + t.drop_last());
        assert(pre.0.last() == t.drop_last());
        assert(pre.0.update(pre.0.len() - 1, pre.0.last().push(t.last())) =~~= crate::text::spec_tokens(
            s,
        ).push(t)) by {
            assert(t.drop_last().push(t.last()) =~= t);
        };
    }
}


/// A written `freq=value` token sets exactly that parameter.
pub proof fn lemma_token_freq(v: u64, cur: Params, st: Settings, curve: Curve, f: bool)
    requires
        1 <= v <= NUM_MAX,
    ensures
        spec_token(
            kw_freq() + seq!['=' as u8] + spec_format_micro(v as int),
            cur,
            st,
            curve,
            f,
        ) == Ok::<(Params, Settings, Curve), ParseErrorKind>((Params { freq: v, ..cur }, st, curve)),
{
    let t = kw_freq() + seq!['=' as u8] + spec_format_micro(v as int);
    lemma_parse_format_micro(v as int);
    assert(t[0] == ('f' as u8) && t[1] == ('r' as u8) && t[2] == ('e' as u8) && t[3] == ('q' as u8));
    assert(t[4] == ('=' as u8));
    assert(forall|j: int| 0 <= j < 4 ==> t[j] != ('=' as u8));
    crate::text::lemma_find_byte(t, '=' as u8, 4);
    assert(t.take(4) =~= kw_freq());
    assert(t.skip(5int) =~= spec_format_micro(v as int));
}

/// A written `tone=value` token sets exactly that parameter.
pub proof fn lemma_token_tone(v: u64, cur: Params, st: Settings, curve: Curve, f: bool)
    requires
        1 <= v <= NUM_MAX,
    ensures
        spec_token(
            kw_tone() + seq!['=' as u8] + spec_format_micro(v as int),
            cur,
            st,
            curve,
            f,
        ) == Ok::<(Params, Settings, Curve), ParseErrorKind>((Params { tone: v, ..cur }, st, curve)),
{
    let t = kw_tone() + seq!['=' as u8] + spec_format_micro(v as int);
    lemma_parse_format_micro(v as int);
    assert(t[0] == ('t' as u8) && t[1] == ('o' as u8) && t[2] == ('n' as u8) && t[3] == ('e' as u8));
    assert(t[4] == ('=' as u8));
    assert(forall|j: int| 0 <= j < 4 ==> t[j] != ('=' as u8));
    crate::text::lemma_find_byte(t, '=' as u8, 4);
    assert(t.take(4) =~= kw_tone());
    assert(t.skip(5int) =~= spec_format_micro(v as int));
}

/// A written `vol=value` token sets exactly that parameter.
pub proof fn lemma_token_vol(v: u64, cur: Params, st: Settings, curve: Curve, f: bool)
    requires
        v <= MICRO,
    ensures
        spec_token(
            kw_vol() + seq!['=' as u8] + spec_format_micro(v as int),
            cur,
            st,
            curve,
            f,
        ) == Ok::<(Params, Settings, Curve), ParseErrorKind>((Params { vol: v, ..cur }, st, curve)),
{
    let t = kw_vol() + seq!['=' as u8] + spec_format_micro(v as int);
    lemma_parse_format_micro(v as int);
    assert(t[0] == ('v' as u8) && t[1] == ('o' as u8) && t[2] == ('l' as u8));
    assert(t[3] == ('=' as u8));
    assert(forall|j: int| 0 <= j < 3 ==> t[j] != ('=' as u8));
    crate::text::lemma_find_byte(t, '=' as u8, 3);
    assert(t.take(3) =~= kw_vol());
    assert(t.skip(4int) =~= spec_format_micro(v as int));
}

/// A written `duty=value` token sets exactly that parameter.
pub proof fn lemma_token_duty(v: u64, cur: Params, st: Settings, curve: Curve, f: bool)
    requires
        crate::params::DUTY_MIN <= v <= crate::params::DUTY_MAX,
    ensures
        spec_token(
            kw_duty() + seq!['=' as u8] + spec_format_micro(v as int),
            cur,
            st,
            curve,
            f,
        ) == Ok::<(Params, Settings, Curve), ParseErrorKind>((Params { duty: v, ..cur }, st, curve)),
{
    let t = kw_duty() + seq!['=' as u8] + spec_format_micro(v as int);
    lemma_parse_format_micro(v as int);
    assert(t[0] == ('d' as u8) && t[1] == ('u' as u8) && t[2] == ('t' as u8) && t[3] == ('y' as u8));
    assert(t[4] == ('=' as u8));
    assert(forall|j: int| 0 <= j < 4 ==> t[j] != ('=' as u8));
    crate::text::lemma_find_byte(t, '=' as u8, 4);
    assert(t.take(4) =~= kw_duty());
    assert(t.skip(5int) =~= spec_format_micro(v as int));
}

/// A written `on=#RRGGBB` token sets the on color.
pub proof fn lemma_token_on(c: crate::color::Color, cur: Params, st: Settings, curve: Curve, f: bool)
    requires
        c.a == 255,
    ensures
        spec_token(kw_on() + seq!['=' as u8] + spec_format_color(c), cur, st, curve, f) == Ok::<
            (Params, Settings, Curve),
            ParseErrorKind,
        >((Params { on: c, ..cur }, st, curve)),
{
    let t = kw_on() + seq!['=' as u8] + spec_format_color(c);
    lemma_parse_format_color(c);
    assert(t[0] == ('o' as u8) && t[1] == ('n' as u8));
    assert(t[2] == ('=' as u8));
    assert(forall|j: int| 0 <= j < 2 ==> t[j] != ('=' as u8));
    crate::text::lemma_find_byte(t, '=' as u8, 2);
    assert(t.take(2) =~= kw_on());
    assert(t.skip(3) =~= spec_format_color(c));
    assert(t.take(2) != kw_freq() && t.take(2) != kw_tone() && t.take(2) != kw_vol() && t.take(2)
        != kw_duty());
}

/// A written `off=#RRGGBB` token sets the off color.
pub proof fn lemma_token_off(c: crate::color::Color, cur: Params, st: Settings, curve: Curve, f: bool)
    requires
        c.a == 255,
    ensures
        spec_token(kw_off() + seq!['=' as u8] + spec_format_color(c), cur, st, curve, f) == Ok::<
            (Params, Settings, Curve),
            ParseErrorKind,
        >((Params { off: c, ..cur }, st, curve)),
{
    let t = kw_off() + seq!['=' as u8] + spec_format_color(c);
    lemma_parse_format_color(c);
    assert(t[0] == ('o' as u8) && t[1] == ('f' as u8) && t[2] == ('f' as u8));
    assert(t[3] == ('=' as u8));
    assert(forall|j: int| 0 <= j < 3 ==> t[j] != ('=' as u8));
    crate::text::lemma_find_byte(t, '=' as u8, 3);
    assert(t.take(3) =~= kw_off());
    assert(t.skip(4) =~= spec_format_color(c));
    assert(t.take(3) != kw_freq() && t.take(3) != kw_tone() && t.take(3) != kw_vol() && t.take(3)
        != kw_duty() && t.take(3) != kw_on());
}

/// A written `>name` token selects that curve.
pub proof fn lemma_token_curve(cv: Curve, name: Seq<u8>, cur: Params, st: Settings, curve: Curve, f: bool)
    requires
        cv == Curve::Linear ==> name == seq![
            'l' as u8,
            'i' as u8,
            'n' as u8,
            'e' as u8,
            'a' as u8,
            'r' as u8,
        ],
        cv == Curve::Smooth ==> name == seq![
            's' as u8,
            'm' as u8,
            'o' as u8,
            'o' as u8,
            't' as u8,
            'h' as u8,
        ],
        cv != Curve::Step,
    ensures
        spec_token(seq!['>' as u8] + name, cur, st, curve, f) == Ok::<
            (Params, Settings, Curve),
            ParseErrorKind,
        >((cur, st, cv)),
{
    let t = seq!['>' as u8] + name;
    assert(t[0] == ('>' as u8));
    assert(t.skip(1) =~= name);
    assert(crate::curve::spec_lower_bytes(name) =~= name) by {
        assert(forall|j: int|
            0 <= j < name.len() ==> crate::curve::spec_lower_bytes(name)[j]
                == crate::curve::spec_to_lower(#[trigger] name[j]));
    };
    assert(Curve::spec_parse(name) == Some(cv));
}

/// A written `binaural` flag token turns the setting on.
pub proof fn lemma_token_binaural(cur: Params, st: Settings, curve: Curve)
    ensures
        spec_token(kw_binaural(), cur, st, curve, true) == Ok::<
            (Params, Settings, Curve),
            ParseErrorKind,
        >((cur, Settings { binaural: true, ..st }, curve)),
{
    let t = kw_binaural();
    assert(forall|j: int| 0 <= j < t.len() ==> t[j] != ('=' as u8));
    crate::text::lemma_find_byte_none(t, '=' as u8);
    assert(t[0] != ('>' as u8));
}

/// A written `headless` flag token turns the setting on.
pub proof fn lemma_token_headless(cur: Params, st: Settings, curve: Curve)
    ensures
        spec_token(kw_headless(), cur, st, curve, true) == Ok::<
            (Params, Settings, Curve),
            ParseErrorKind,
        >((cur, Settings { headless: true, ..st }, curve)),
{
    let t = kw_headless();
    assert(forall|j: int| 0 <= j < t.len() ==> t[j] != ('=' as u8));
    crate::text::lemma_find_byte_none(t, '=' as u8);
    assert(t[0] != ('>' as u8));
    assert(t != kw_binaural());
}


/// Bytes that may stand inside an emitted line: ASCII and no newline.
pub open spec fn line_bytes_ok(s: Seq<u8>) -> bool {
    forall|j: int| 0 <= j < s.len() ==> #[trigger] s[j] < 128 && s[j] != 10
}

/// Append a ` freq=value` token and account for its effect.
#[verifier::rlimit(60)]
fn emit_freq(
    lt: &mut Vec<u8>,
    v: u64,
    Ghost(toks): Ghost<Seq<Seq<u8>>>,
    Ghost(start): Ghost<(Params, Settings, bool)>,
    Ghost(state): Ghost<(Params, Settings, Curve)>,
) -> (r: Ghost<Seq<Seq<u8>>>)
    requires
        1 <= v <= NUM_MAX,
        toks.len() >= 1,
        crate::text::spec_tok_state(old(lt)@) == (toks, true),
        line_bytes_ok(old(lt)@),
        spec_line_tokens(toks, 1, start.0, start.1, Curve::Step, start.2) == Ok::<
            (Params, Settings, Curve),
            ParseErrorKind,
        >(state),
    ensures
        crate::text::spec_tok_state(final(lt)@) == (r@, true),
        line_bytes_ok(final(lt)@),
        r@.len() == toks.len() + 1,
        forall|j: int| 0 <= j < toks.len() ==> #[trigger] r@[j] == toks[j],
        final(lt)@.len() >= old(lt)@.len(),
        forall|j: int| 0 <= j < old(lt)@.len() ==> #[trigger] final(lt)@[j] == old(lt)@[j],
        spec_line_tokens(r@, 1, start.0, start.1, Curve::Step, start.2) == Ok::<
            (Params, Settings, Curve),
            ParseErrorKind,
        >((Params { freq: v, ..state.0 }, state.1, state.2)),
{
    let ghost before = lt@;
    lt.push(32);
    proof {
        assert(lt@ =~= before.push(32));
        lemma_tok_push_ws(before);
    }
    let ghost mid = lt@;
    push_bytes(lt, &['f' as u8, 'r' as u8, 'e' as u8, 'q' as u8, '=' as u8]);
    push_micro(lt, v);
    let ghost t = kw_freq() + seq!['=' as u8] + spec_format_micro(v as int);
    proof {
        assert(lt@ =~= mid + t);
        lemma_format_micro_bytes(v as int);
        assert(tok_ok(t) && (forall|j: int| 0 <= j < t.len() ==> #[trigger] t[j] < 128)) by {
            assert forall|j: int| 0 <= j < t.len() implies !crate::text::is_ws(#[trigger] t[j])
                && t[j] != 10 && t[j] < 128 by {
                if j > 4 {
                    assert(t[j] == spec_format_micro(v as int)[j - 4 - 1]);
                }
            }
        };
        lemma_tok_push_token(mid, t);
        crate::program::lemma_line_tokens_snoc(toks, t, 1, start.0, start.1, Curve::Step, start.2);
        lemma_token_freq(v, state.0, state.1, state.2, start.2);
    }
    Ghost(toks.push(t))
}

/// Append a ` tone=value` token and account for its effect.
#[verifier::rlimit(60)]
fn emit_tone(
    lt: &mut Vec<u8>,
    v: u64,
    Ghost(toks): Ghost<Seq<Seq<u8>>>,
    Ghost(start): Ghost<(Params, Settings, bool)>,
    Ghost(state): Ghost<(Params, Settings, Curve)>,
) -> (r: Ghost<Seq<Seq<u8>>>)
    requires
        1 <= v <= NUM_MAX,
        toks.len() >= 1,
        crate::text::spec_tok_state(old(lt)@) == (toks, true),
        line_bytes_ok(old(lt)@),
        spec_line_tokens(toks, 1, start.0, start.1, Curve::Step, start.2) == Ok::<
            (Params, Settings, Curve),
            ParseErrorKind,
        >(state),
    ensures
        crate::text::spec_tok_state(final(lt)@) == (r@, true),
        line_bytes_ok(final(lt)@),
        r@.len() == toks.len() + 1,
        forall|j: int| 0 <= j < toks.len() ==> #[trigger] r@[j] == toks[j],
        final(lt)@.len() >= old(lt)@.len(),
        forall|j: int| 0 <= j < old(lt)@.len() ==> #[trigger] final(lt)@[j] == old(lt)@[j],
        spec_line_tokens(r@, 1, start.0, start.1, Curve::Step, start.2) == Ok::<
            (Params, Settings, Curve),
            ParseErrorKind,
        >((Params { tone: v, ..state.0 }, state.1, state.2)),
{
    let ghost before = lt@;
    lt.push(32);
    proof {
        assert(lt@ =~= before.push(32));
        lemma_tok_push_ws(before);
    }
    let ghost mid = lt@;
    push_bytes(lt, &['t' as u8, 'o' as u8, 'n' as u8, 'e' as u8, '=' as u8]);
    push_micro(lt, v);
    let ghost t = kw_tone() + seq!['=' as u8] + spec_format_micro(v as int);
    proof {
        assert(lt@ =~= mid + t);
        lemma_format_micro_bytes(v as int);
        assert(tok_ok(t) && (forall|j: int| 0 <= j < t.len() ==> #[trigger] t[j] < 128)) by {
            assert forall|j: int| 0 <= j < t.len() implies !crate::text::is_ws(#[trigger] t[j])
                && t[j] != 10 && t[j] < 128 by {
                if j > 4 {
                    assert(t[j] == spec_format_micro(v as int)[j - 4 - 1]);
                }
            }
        };
        lemma_tok_push_token(mid, t);
        crate::program::lemma_line_tokens_snoc(toks, t, 1, start.0, start.1, Curve::Step, start.2);
        lemma_token_tone(v, state.0, state.1, state.2, start.2);
    }
    Ghost(toks.push(t))
}

/// Append a ` vol=value` token and account for its effect.
#[verifier::rlimit(60)]
fn emit_vol(
    lt: &mut Vec<u8>,
    v: u64,
    Ghost(toks): Ghost<Seq<Seq<u8>>>,
    Ghost(start): Ghost<(Params, Settings, bool)>,
    Ghost(state): Ghost<(Params, Settings, Curve)>,
) -> (r: Ghost<Seq<Seq<u8>>>)
    requires
        v <= MICRO,
        toks.len() >= 1,
        crate::text::spec_tok_state(old(lt)@) == (toks, true),
        line_bytes_ok(old(lt)@),
        spec_line_tokens(toks, 1, start.0, start.1, Curve::Step, start.2) == Ok::<
            (Params, Settings, Curve),
            ParseErrorKind,
        >(state),
    ensures
        crate::text::spec_tok_state(final(lt)@) == (r@, true),
        line_bytes_ok(final(lt)@),
        r@.len() == toks.len() + 1,
        forall|j: int| 0 <= j < toks.len() ==> #[trigger] r@[j] == toks[j],
        final(lt)@.len() >= old(lt)@.len(),
        forall|j: int| 0 <= j < old(lt)@.len() ==> #[trigger] final(lt)@[j] == old(lt)@[j],
        spec_line_tokens(r@, 1, start.0, start.1, Curve::Step, start.2) == Ok::<
            (Params, Settings, Curve),
            ParseErrorKind,
        >((Params { vol: v, ..state.0 }, state.1, state.2)),
{
    let ghost before = lt@;
    lt.push(32);
    proof {
        assert(lt@ =~= before.push(32));
        lemma_tok_push_ws(before);
    }
    let ghost mid = lt@;
    push_bytes(lt, &['v' as u8, 'o' as u8, 'l' as u8, '=' as u8]);
    push_micro(lt, v);
    let ghost t = kw_vol() + seq!['=' as u8] + spec_format_micro(v as int);
    proof {
        assert(lt@ =~= mid + t);
        lemma_format_micro_bytes(v as int);
        assert(tok_ok(t) && (forall|j: int| 0 <= j < t.len() ==> #[trigger] t[j] < 128)) by {
            assert forall|j: int| 0 <= j < t.len() implies !crate::text::is_ws(#[trigger] t[j])
                && t[j] != 10 && t[j] < 128 by {
                if j > 3 {
                    assert(t[j] == spec_format_micro(v as int)[j - 3 - 1]);
                }
            }
        };
        lemma_tok_push_token(mid, t);
        crate::program::lemma_line_tokens_snoc(toks, t, 1, start.0, start.1, Curve::Step, start.2);
        lemma_token_vol(v, state.0, state.1, state.2, start.2);
    }
    Ghost(toks.push(t))
}

/// Append a ` duty=value` token and account for its effect.
#[verifier::rlimit(60)]
fn emit_duty(
    lt: &mut Vec<u8>,
    v: u64,
    Ghost(toks): Ghost<Seq<Seq<u8>>>,
    Ghost(start): Ghost<(Params, Settings, bool)>,
    Ghost(state): Ghost<(Params, Settings, Curve)>,
) -> (r: Ghost<Seq<Seq<u8>>>)
    requires
        crate::params::DUTY_MIN <= v <= crate::params::DUTY_MAX,
        toks.len() >= 1,
        crate::text::spec_tok_state(old(lt)@) == (toks, true),
        line_bytes_ok(old(lt)@),
        spec_line_tokens(toks, 1, start.0, start.1, Curve::Step, start.2) == Ok::<
            (Params, Settings, Curve),
            ParseErrorKind,
        >(state),
    ensures
        crate::text::spec_tok_state(final(lt)@) == (r@, true),
        line_bytes_ok(final(lt)@),
        r@.len() == toks.len() + 1,
        forall|j: int| 0 <= j < toks.len() ==> #[trigger] r@[j] == toks[j],
        final(lt)@.len() >= old(lt)@.len(),
        forall|j: int| 0 <= j < old(lt)@.len() ==> #[trigger] final(lt)@[j] == old(lt)@[j],
        spec_line_tokens(r@, 1, start.0, start.1, Curve::Step, start.2) == Ok::<
            (Params, Settings, Curve),
            ParseErrorKind,
        >((Params { duty: v, ..state.0 }, state.1, state.2)),
{
    let ghost before = lt@;
    lt.push(32);
    proof {
        assert(lt@ =~= before.push(32));
        lemma_tok_push_ws(before);
    }
    let ghost mid = lt@;
    push_bytes(lt, &['d' as u8, 'u' as u8, 't' as u8, 'y' as u8, '=' as u8]);
    push_micro(lt, v);
    let ghost t = kw_duty() + seq!['=' as u8] + spec_format_micro(v as int);
    proof {
        assert(lt@ =~= mid + t);
        lemma_format_micro_bytes(v as int);
        assert(tok_ok(t) && (forall|j: int| 0 <= j < t.len() ==> #[trigger] t[j] < 128)) by {
            assert forall|j: int| 0 <= j < t.len() implies !crate::text::is_ws(#[trigger] t[j])
                && t[j] != 10 && t[j] < 128 by {
                if j > 4 {
                    assert(t[j] == spec_format_micro(v as int)[j - 4 - 1]);
                }
            }
        };
        lemma_tok_push_token(mid, t);
        crate::program::lemma_line_tokens_snoc(toks, t, 1, start.0, start.1, Curve::Step, start.2);
        lemma_token_duty(v, state.0, state.1, state.2, start.2);
    }
    Ghost(toks.push(t))
}

/// Append a ` on=value` token and account for its effect.
#[verifier::rlimit(60)]
fn emit_on(
    lt: &mut Vec<u8>,
    v: crate::color::Color,
    Ghost(toks): Ghost<Seq<Seq<u8>>>,
    Ghost(start): Ghost<(Params, Settings, bool)>,
    Ghost(state): Ghost<(Params, Settings, Curve)>,
) -> (r: Ghost<Seq<Seq<u8>>>)
    requires
        v.a == 255,
        toks.len() >= 1,
        crate::text::spec_tok_state(old(lt)@) == (toks, true),
        line_bytes_ok(old(lt)@),
        spec_line_tokens(toks, 1, start.0, start.1, Curve::Step, start.2) == Ok::<
            (Params, Settings, Curve),
            ParseErrorKind,
        >(state),
    ensures
        crate::text::spec_tok_state(final(lt)@) == (r@, true),
        line_bytes_ok(final(lt)@),
        r@.len() == toks.len() + 1,
        forall|j: int| 0 <= j < toks.len() ==> #[trigger] r@[j] == toks[j],
        final(lt)@.len() >= old(lt)@.len(),
        forall|j: int| 0 <= j < old(lt)@.len() ==> #[trigger] final(lt)@[j] == old(lt)@[j],
        spec_line_tokens(r@, 1, start.0, start.1, Curve::Step, start.2) == Ok::<
            (Params, Settings, Curve),
            ParseErrorKind,
        >((Params { on: v, ..state.0 }, state.1, state.2)),
{
    let ghost before = lt@;
    lt.push(32);
    proof {
        assert(lt@ =~= before.push(32));
        lemma_tok_push_ws(before);
    }
    let ghost mid = lt@;
    push_bytes(lt, &['o' as u8, 'n' as u8, '=' as u8]);
    push_color(lt, v);
    let ghost t = kw_on() + seq!['=' as u8] + spec_format_color(v);
    proof {
        assert(lt@ =~= mid + t);
        
        assert(tok_ok(t) && (forall|j: int| 0 <= j < t.len() ==> #[trigger] t[j] < 128)) by {
            assert forall|j: int| 0 <= j < t.len() implies !crate::text::is_ws(#[trigger] t[j])
                && t[j] != 10 && t[j] < 128 by {
                if j > 2 {
                    assert(t[j] == spec_format_color(v)[j - 2 - 1]);
                }
            }
        };
        lemma_tok_push_token(mid, t);
        crate::program::lemma_line_tokens_snoc(toks, t, 1, start.0, start.1, Curve::Step, start.2);
        lemma_token_on(v, state.0, state.1, state.2, start.2);
    }
    Ghost(toks.push(t))
}

/// Append a ` off=value` token and account for its effect.
#[verifier::rlimit(60)]
fn emit_off(
    lt: &mut Vec<u8>,
    v: crate::color::Color,
    Ghost(toks): Ghost<Seq<Seq<u8>>>,
    Ghost(start): Ghost<(Params, Settings, bool)>,
    Ghost(state): Ghost<(Params, Settings, Curve)>,
) -> (r: Ghost<Seq<Seq<u8>>>)
    requires
        v.a == 255,
        toks.len() >= 1,
        crate::text::spec_tok_state(old(lt)@) == (toks, true),
        line_bytes_ok(old(lt)@),
        spec_line_tokens(toks, 1, start.0, start.1, Curve::Step, start.2) == Ok::<
            (Params, Settings, Curve),
            ParseErrorKind,
        >(state),
    ensures
        crate::text::spec_tok_state(final(lt)@) == (r@, true),
        line_bytes_ok(final(lt)@),
        r@.len() == toks.len() + 1,
        forall|j: int| 0 <= j < toks.len() ==> #[trigger] r@[j] == toks[j],
        final(lt)@.len() >= old(lt)@.len(),
        forall|j: int| 0 <= j < old(lt)@.len() ==> #[trigger] final(lt)@[j] == old(lt)@[j],
        spec_line_tokens(r@, 1, start.0, start.1, Curve::Step, start.2) == Ok::<
            (Params, Settings, Curve),
            ParseErrorKind,
        >((Params { off: v, ..state.0 }, state.1, state.2)),
{
    let ghost before = lt@;
    lt.push(32);
    proof {
        assert(lt@ =~= before.push(32));
        lemma_tok_push_ws(before);
    }
    let ghost mid = lt@;
    push_bytes(lt, &['o' as u8, 'f' as u8, 'f' as u8, '=' as u8]);
    push_color(lt, v);
    let ghost t = kw_off() + seq!['=' as u8] + spec_format_color(v);
    proof {
        assert(lt@ =~= mid + t);
        
        assert(tok_ok(t) && (forall|j: int| 0 <= j < t.len() ==> #[trigger] t[j] < 128)) by {
            assert forall|j: int| 0 <= j < t.len() implies !crate::text::is_ws(#[trigger] t[j])
                && t[j] != 10 && t[j] < 128 by {
                if j > 3 {
                    assert(t[j] == spec_format_color(v)[j - 3 - 1]);
                }
            }
        };
        lemma_tok_push_token(mid, t);
        crate::program::lemma_line_tokens_snoc(toks, t, 1, start.0, start.1, Curve::Step, start.2);
        lemma_token_off(v, state.0, state.1, state.2, start.2);
    }
    Ghost(toks.push(t))
}

/// Append a ` >curve` token and account for its effect.
#[verifier::rlimit(60)]
fn emit_curve(
    lt: &mut Vec<u8>,
    cv: Curve,
    Ghost(toks): Ghost<Seq<Seq<u8>>>,
    Ghost(start): Ghost<(Params, Settings, bool)>,
    Ghost(state): Ghost<(Params, Settings, Curve)>,
) -> (r: Ghost<Seq<Seq<u8>>>)
    requires
        cv != Curve::Step,
        toks.len() >= 1,
        crate::text::spec_tok_state(old(lt)@) == (toks, true),
        line_bytes_ok(old(lt)@),
        spec_line_tokens(toks, 1, start.0, start.1, Curve::Step, start.2) == Ok::<
            (Params, Settings, Curve),
            ParseErrorKind,
        >(state),
    ensures
        crate::text::spec_tok_state(final(lt)@) == (r@, true),
        line_bytes_ok(final(lt)@),
        r@.len() == toks.len() + 1,
        forall|j: int| 0 <= j < toks.len() ==> #[trigger] r@[j] == toks[j],
        final(lt)@.len() >= old(lt)@.len(),
        forall|j: int| 0 <= j < old(lt)@.len() ==> #[trigger] final(lt)@[j] == old(lt)@[j],
        spec_line_tokens(r@, 1, start.0, start.1, Curve::Step, start.2) == Ok::<
            (Params, Settings, Curve),
            ParseErrorKind,
        >((state.0, state.1, cv)),
{
    let ghost before = lt@;
    lt.push(32);
    proof {
        assert(lt@ =~= before.push(32));
        lemma_tok_push_ws(before);
    }
    let ghost mid = lt@;
    match cv {
        Curve::Linear => {
            push_bytes(lt, &['>' as u8, 'l' as u8, 'i' as u8, 'n' as u8, 'e' as u8, 'a' as u8, 'r' as u8]);
        },
        _ => {
            push_bytes(lt, &['>' as u8, 's' as u8, 'm' as u8, 'o' as u8, 'o' as u8, 't' as u8, 'h' as u8]);
        },
    }
    let ghost name: Seq<u8> = if cv == Curve::Linear {
        seq!['l' as u8, 'i' as u8, 'n' as u8, 'e' as u8, 'a' as u8, 'r' as u8]
    } else {
        seq!['s' as u8, 'm' as u8, 'o' as u8, 'o' as u8, 't' as u8, 'h' as u8]
    };
    let ghost t = seq!['>' as u8] + name;
    proof {
        assert(lt@ =~= mid + t);
        assert(tok_ok(t) && (forall|j: int| 0 <= j < t.len() ==> #[trigger] t[j] < 128));
        lemma_tok_push_token(mid, t);
        crate::program::lemma_line_tokens_snoc(toks, t, 1, start.0, start.1, Curve::Step, start.2);
        lemma_token_curve(cv, name, state.0, state.1, state.2, start.2);
    }
    Ghost(toks.push(t))
}

/// Append a bare settings flag token and account for its effect.
#[verifier::rlimit(60)]
fn emit_flag(
    lt: &mut Vec<u8>,
    headless: bool,
    Ghost(toks): Ghost<Seq<Seq<u8>>>,
    Ghost(start): Ghost<(Params, Settings, bool)>,
    Ghost(state): Ghost<(Params, Settings, Curve)>,
) -> (r: Ghost<Seq<Seq<u8>>>)
    requires
        start.2,
        toks.len() >= 1,
        crate::text::spec_tok_state(old(lt)@) == (toks, true),
        line_bytes_ok(old(lt)@),
        spec_line_tokens(toks, 1, start.0, start.1, Curve::Step, start.2) == Ok::<
            (Params, Settings, Curve),
            ParseErrorKind,
        >(state),
    ensures
        crate::text::spec_tok_state(final(lt)@) == (r@, true),
        line_bytes_ok(final(lt)@),
        r@.len() == toks.len() + 1,
        forall|j: int| 0 <= j < toks.len() ==> #[trigger] r@[j] == toks[j],
        final(lt)@.len() >= old(lt)@.len(),
        forall|j: int| 0 <= j < old(lt)@.len() ==> #[trigger] final(lt)@[j] == old(lt)@[j],
        spec_line_tokens(r@, 1, start.0, start.1, Curve::Step, start.2) == Ok::<
            (Params, Settings, Curve),
            ParseErrorKind,
        >((
            state.0,
            if headless {
                Settings { headless: true, ..state.1 }
            } else {
                Settings { binaural: true, ..state.1 }
            },
            state.2,
        )),
{
    let ghost before = lt@;
    lt.push(32);
    proof {
        assert(lt@ =~= before.push(32));
        lemma_tok_push_ws(before);
    }
    let ghost mid = lt@;
    if headless {
        push_bytes(lt, &['h' as u8, 'e' as u8, 'a' as u8, 'd' as u8, 'l' as u8, 'e' as u8, 's' as u8, 's' as u8]);
    } else {
        push_bytes(lt, &['b' as u8, 'i' as u8, 'n' as u8, 'a' as u8, 'u' as u8, 'r' as u8, 'a' as u8, 'l' as u8]);
    }
    let ghost t: Seq<u8> = if headless {
        kw_headless()
    } else {
        kw_binaural()
    };
    proof {
        assert(lt@ =~= mid + t);
        assert(tok_ok(t) && (forall|j: int| 0 <= j < t.len() ==> #[trigger] t[j] < 128));
        lemma_tok_push_token(mid, t);
        crate::program::lemma_line_tokens_snoc(toks, t, 1, start.0, start.1, Curve::Step, start.2);
        if headless {
            lemma_token_headless(state.0, state.1, state.2);
        } else {
            lemma_token_binaural(state.0, state.1, state.2);
        }
    }
    Ghost(toks.push(t))
}


/// Re-emission threshold for `freq`, in micro-hertz (0.001 Hz).
pub const FREQ_EPS: u64 = 1_000;

/// Re-emission threshold for `tone`, in micro-hertz (0.1 Hz).
pub const TONE_EPS: u64 = 100_000;

/// Re-emission threshold for `vol`, in micro-units (0.001).
pub const VOL_EPS: u64 = 1_000;

/// Re-emission threshold for `duty`, in micro-units (0.001).
pub const DUTY_EPS: u64 = 1_000;

/// Two parameter sets agree within the re-emission thresholds, with
/// colors equal.
pub open spec fn params_close(a: Params, b: Params) -> bool {
    &&& -(FREQ_EPS as int) <= a.freq - b.freq <= FREQ_EPS
    &&& -(TONE_EPS as int) <= a.tone - b.tone <= TONE_EPS
    &&& -(VOL_EPS as int) <= a.vol - b.vol <= VOL_EPS
    &&& -(DUTY_EPS as int) <= a.duty - b.duty <= DUTY_EPS
    &&& a.on == b.on
    &&& a.off == b.off
}

/// Write one keyframe line: the timestamp, then every parameter that
/// moved beyond its threshold against what a reader of the emitted text
/// would carry (all of them on the first line, plus the settings flags),
/// and the curve when it is not the default. `carried` tracks the
/// reader's parameter state and is updated to what this line leaves it.
#[verifier::rlimit(100)]
fn emit_line(
    kf: &Keyframe,
    carried: &mut Params,
    settings: &Settings,
    first: bool,
    Ghost(st_in): Ghost<Settings>,
) -> (lt: Vec<u8>)
    requires
        kf.params.wf(),
        old(carried).wf(),
        kf.time <= crate::text::TIME_MAX,
        first ==> st_in == Settings::spec_default(),
    ensures
        line_bytes_ok(lt@),
        crate::text::spec_significant(lt@),
        final(carried).wf(),
        params_close(kf.params, *final(carried)),
        first ==> *final(carried) == kf.params,
        crate::program::spec_parse_line(lt@, *old(carried), st_in, first) == Ok::<
            (Keyframe, Params, Settings),
            ParseErrorKind,
        >((
            Keyframe { time: kf.time, params: *final(carried), curve: kf.curve },
            *final(carried),
            if first {
                *settings
            } else {
                st_in
            },
        )),
{
    let mut lt: Vec<u8> = Vec::new();
    push_timestamp(&mut lt, kf.time);
    proof {
        lemma_parse_format_timestamp(kf.time as int);
    }
    let ghost ts = spec_format_timestamp(kf.time as int);
    let ghost start: (Params, Settings, bool) = (*old(carried), st_in, first);
    let ghost mut toks: Seq<Seq<u8>> = seq![ts];
    let ghost mut state: (Params, Settings, Curve) = (*old(carried), st_in, Curve::Step);
    proof {
        assert(crate::text::spec_tok_state(Seq::<u8>::empty()) == (
            Seq::<Seq<u8>>::empty(),
            false,
        ));
        assert(tok_ok(ts) && (forall|j: int| 0 <= j < ts.len() ==> #[trigger] ts[j] < 128))
            by {
            assert forall|j: int|
                0 <= j < ts.len() implies !crate::text::is_ws(#[trigger] ts[j]) && ts[j] != 10
                && ts[j] < 128 by {
                assert(is_numlike(ts[j]) || ts[j] == (':' as u8));
            }
        };
        assert(Seq::<u8>::empty() + ts =~= ts);
        assert(lt@ =~= ts);
        lemma_tok_push_token(Seq::<u8>::empty(), ts);
        assert(Seq::<Seq<u8>>::empty().push(ts) =~= toks);
        assert(spec_line_tokens(toks, 1, start.0, start.1, Curve::Step, start.2) == Ok::<
            (Params, Settings, Curve),
            ParseErrorKind,
        >(state)) by {
            reveal_with_fuel(spec_line_tokens, 3);
        };
        assert(line_bytes_ok(lt@));
    }
    // freq
    let df: u64 = if kf.params.freq >= carried.freq {
        kf.params.freq - carried.freq
    } else {
        carried.freq - kf.params.freq
    };
    if first || df > FREQ_EPS {
        let r = emit_freq(&mut lt, kf.params.freq, Ghost(toks), Ghost(start), Ghost(state));
        proof {
            toks = r@;
            state = (Params { freq: kf.params.freq, ..state.0 }, state.1, state.2);
        }
        carried.freq = kf.params.freq;
    }
    // tone
    let dt: u64 = if kf.params.tone >= carried.tone {
        kf.params.tone - carried.tone
    } else {
        carried.tone - kf.params.tone
    };
    if first || dt > TONE_EPS {
        let r = emit_tone(&mut lt, kf.params.tone, Ghost(toks), Ghost(start), Ghost(state));
        proof {
            toks = r@;
            state = (Params { tone: kf.params.tone, ..state.0 }, state.1, state.2);
        }
        carried.tone = kf.params.tone;
    }
    // vol
    let dv: u64 = if kf.params.vol >= carried.vol {
        kf.params.vol - carried.vol
    } else {
        carried.vol - kf.params.vol
    };
    if first || dv > VOL_EPS {
        let r = emit_vol(&mut lt, kf.params.vol, Ghost(toks), Ghost(start), Ghost(state));
        proof {
            toks = r@;
            state = (Params { vol: kf.params.vol, ..state.0 }, state.1, state.2);
        }
        carried.vol = kf.params.vol;
    }
    // duty
    let dd: u64 = if kf.params.duty >= carried.duty {
        kf.params.duty - carried.duty
    } else {
        carried.duty - kf.params.duty
    };
    if first || dd > DUTY_EPS {
        let r = emit_duty(&mut lt, kf.params.duty, Ghost(toks), Ghost(start), Ghost(state));
        proof {
            toks = r@;
            state = (Params { duty: kf.params.duty, ..state.0 }, state.1, state.2);
        }
        carried.duty = kf.params.duty;
    }
    // colors
    let on_same = kf.params.on.r == carried.on.r && kf.params.on.g == carried.on.g
        && kf.params.on.b == carried.on.b && kf.params.on.a == carried.on.a;
    if first || !on_same {
        let r = emit_on(&mut lt, kf.params.on, Ghost(toks), Ghost(start), Ghost(state));
        proof {
            toks = r@;
            state = (Params { on: kf.params.on, ..state.0 }, state.1, state.2);
        }
        carried.on = kf.params.on;
    }
    let off_same = kf.params.off.r == carried.off.r && kf.params.off.g == carried.off.g
        && kf.params.off.b == carried.off.b && kf.params.off.a == carried.off.a;
    if first || !off_same {
        let r = emit_off(&mut lt, kf.params.off, Ghost(toks), Ghost(start), Ghost(state));
        proof {
            toks = r@;
            state = (Params { off: kf.params.off, ..state.0 }, state.1, state.2);
        }
        carried.off = kf.params.off;
    }
    // settings flags, first line only
    if first {
        if settings.binaural {
            let r = emit_flag(&mut lt, false, Ghost(toks), Ghost(start), Ghost(state));
            proof {
                toks = r@;
                state = (state.0, Settings { binaural: true, ..state.1 }, state.2);
            }
        }
        if settings.headless {
            let r = emit_flag(&mut lt, true, Ghost(toks), Ghost(start), Ghost(state));
            proof {
                toks = r@;
                state = (state.0, Settings { headless: true, ..state.1 }, state.2);
            }
        }
    }
    // the curve, when not the default
    if !matches!(kf.curve, Curve::Step) {
        let r = emit_curve(&mut lt, kf.curve, Ghost(toks), Ghost(start), Ghost(state));
        proof {
            toks = r@;
            state = (state.0, state.1, kf.curve);
        }
    }
    proof {
        assert(crate::text::spec_tokens(lt@) == toks);
        assert(toks[0] == ts);
        assert(crate::text::spec_parse_timestamp(toks[0]) == Some(kf.time));
        assert(state.0 == *carried);
        assert(state.2 == kf.curve);
        if first {
            assert(state.1 == *settings);
        } else {
            assert(state.1 == st_in);
        }
        // the line is significant: it opens with a timestamp byte
        assert(lt@[0] == ts[0]);
        assert(is_numlike(ts[0]) || ts[0] == (':' as u8));
        assert(!crate::text::is_ws(lt@[0]));
        assert(crate::text::spec_trim_front(lt@) == lt@);
        assert(lt@[0] != ('#' as u8) && lt@[0] != ('/' as u8));
    }
    lt
}


/// Extending a text without newlines extends its last line.
pub proof fn lemma_split_lines_append_text(x: Seq<u8>, t: Seq<u8>)
    requires
        forall|j: int| 0 <= j < t.len() ==> #[trigger] t[j] != 10,
    ensures
        crate::text::spec_split_lines(x + t) =~~= crate::text::spec_split_lines(x).update(
            crate::text::spec_split_lines(x).len() - 1,
            crate::text::spec_split_lines(x).last() + t,
        ),
    decreases t.len(),
{
    crate::text::lemma_split_lines_len(x);
    if t.len() == 0 {
        assert(x + t =~= x);
        assert(crate::text::spec_split_lines(x).last() + t =~= crate::text::spec_split_lines(
            x,
        ).last());
    } else {
        lemma_split_lines_append_text(x, t.drop_last());
        assert((x + t).drop_last() =~= x + t.drop_last());
        assert((x + t).last() == t.last());
        crate::text::lemma_split_lines_len(x + t.drop_last());
        assert(crate::text::spec_split_lines(x).last() + t =~= (crate::text::spec_split_lines(
            x,
        ).last() + t.drop_last()).push(t.last()));
    }
}

/// Keyframe lists that re-read as each other: same times and curves,
/// parameters within the re-emission thresholds.
pub open spec fn keyframes_close(orig: Seq<Keyframe>, rt: Seq<Keyframe>) -> bool {
    &&& rt.len() == orig.len()
    &&& forall|i: int|
        0 <= i < orig.len() ==> {
            &&& (#[trigger] rt[i]).time == orig[i].time
            &&& rt[i].curve == orig[i].curve
            &&& rt[i].params.wf()
            &&& params_close(orig[i].params, rt[i].params)
        }
}

/// Relies on `String::from_utf8`: ASCII bytes are valid UTF-8 and decode
/// to one char per byte.
#[verifier::external_body]
fn ascii_to_string(v: Vec<u8>) -> (s: String)
    requires
        forall|j: int| 0 <= j < v@.len() ==> #[trigger] v@[j] < 128,
    ensures
        s@ == v@.map_values(|b: u8| b as char),
{
    String::from_utf8(v).unwrap_or_default()
}

impl crate::program::Program {
    /// Export the program back to source text. The first keyframe is
    /// written with every field (and the settings flags); later keyframes
    /// write only the fields that moved beyond the re-emission thresholds
    /// against the state a reader of the text carries, plus any non-default
    /// curve. The text always re-parses, to the same settings and to
    /// keyframes at the same times and curves whose parameters lie within
    /// the thresholds of the originals.
    #[verifier::rlimit(100)]
    #[verifier::loop_isolation(false)]
    pub fn to_source(&self) -> (r: String)
        requires
            self.wf(),
        ensures
            vstd::utf8::is_ascii_chars(r@),
            exists|rt: Seq<Keyframe>|
                #![auto]
                {
                    &&& keyframes_close(self.keyframes@, rt)
                    &&& crate::program::spec_parse(vstd::utf8::encode_utf8(r@)) == Ok::<
                        (Seq<Keyframe>, Settings),
                        crate::program::ParseError,
                    >((rt, self.settings))
                },
    {
        let n = self.keyframes.len();
        let mut out: Vec<u8> = Vec::new();
        let mut carried: Params = Params::default();
        let ghost mut rt_kfs: Seq<Keyframe> = Seq::empty();
        let ghost mut gst: Settings = Settings::spec_default();
        let mut i: usize = 0;
        proof {
            assert(crate::text::spec_split_lines(out@) =~~= seq![Seq::<u8>::empty()]);
            assert(crate::program::spec_fold_lines(
                crate::text::spec_split_lines(out@),
                0,
                Seq::empty(),
                Params::spec_default(),
                Settings::spec_default(),
            ) == Ok::<(Seq<Keyframe>, Params, Settings), crate::program::ParseError>((
                rt_kfs,
                carried,
                gst,
            ))) by {
                reveal_with_fuel(crate::program::spec_fold_lines, 3);
            };
        }
        while i < n
            invariant
                i <= n,
                carried.wf(),
                i == 0 ==> out@.len() == 0,
                i > 0 ==> out@.len() > 0 && out@.last() == 10,
                forall|j: int| 0 <= j < out@.len() ==> #[trigger] out@[j] < 128,
                crate::program::spec_fold_lines(
                    crate::text::spec_split_lines(out@),
                    0,
                    Seq::empty(),
                    Params::spec_default(),
                    Settings::spec_default(),
                ) == Ok::<(Seq<Keyframe>, Params, Settings), crate::program::ParseError>((
                    rt_kfs,
                    carried,
                    gst,
                )),
                rt_kfs.len() == i,
                forall|k: int|
                    0 <= k < i ==> {
                        &&& (#[trigger] rt_kfs[k]).time == self.keyframes@[k].time
                        &&& rt_kfs[k].curve == self.keyframes@[k].curve
                        &&& rt_kfs[k].params.wf()
                        &&& params_close(self.keyframes@[k].params, rt_kfs[k].params)
                    },
                gst == if i == 0 {
                    Settings::spec_default()
                } else {
                    self.settings
                },
            decreases n - i,
        {
            let kf = self.keyframes[i];
            let first = i == 0;
            let ghost carried_old = carried;
            let lt = emit_line(&kf, &mut carried, &self.settings, first, Ghost(gst));
            let ghost out_old = out@;
            push_bytes(&mut out, lt.as_slice());
            out.push(10);
            proof {
                let e: Seq<u8> = Seq::empty();
                let d0 = Params::spec_default();
                let s0 = Settings::spec_default();
                assert(out@ =~= out_old + lt@ + seq![10u8]);
                let l_old = crate::text::spec_split_lines(out_old);
                crate::text::lemma_split_lines_len(out_old);
                if i == 0 {
                    assert(out_old =~= e);
                    assert(l_old =~~= seq![e]);
                } else {
                    assert(out_old.last() == 10);
                }
                assert(l_old.last() =~= e);
                let m = l_old.drop_last();
                assert(m.push(l_old.last()) =~= l_old);
                lemma_split_lines_append_text(out_old, lt@);
                assert(crate::text::spec_split_lines(out_old + lt@) =~~= m.push(lt@)) by {
                    assert(l_old.update(l_old.len() - 1, l_old.last() + lt@) =~~= m.push(
                        l_old.last() + lt@,
                    ));
                    assert(l_old.last() + lt@ =~= lt@);
                };
                assert((out_old + lt@).push(10) =~= out@);
                assert(crate::text::spec_split_lines(out@) =~~= m.push(lt@).push(e)) by {
                    assert(out@.last() == 10);
                    assert(out@.drop_last() =~= out_old + lt@);
                };
                // the old fold, with its no-op trailing blank line peeled off
                crate::program::lemma_fold_lines_snoc(m, e, 0, Seq::empty(), d0, s0);
                assert(!crate::text::spec_significant(e));
                let fm = crate::program::spec_fold_lines(m, 0, Seq::empty(), d0, s0);
                assert(fm == Ok::<(Seq<Keyframe>, Params, Settings), crate::program::ParseError>((
                    rt_kfs,
                    carried_old,
                    gst,
                )));
                // fold in the new line
                crate::program::lemma_fold_lines_snoc(m, lt@, 0, Seq::empty(), d0, s0);
                let kf2 = Keyframe { time: kf.time, params: carried, curve: kf.curve };
                if rt_kfs.len() > 0 {
                    assert(rt_kfs.last().time == self.keyframes@[i - 1].time);
                    assert(self.keyframes@[(i - 1) + 1].time > self.keyframes@[i - 1].time);
                }
                assert(crate::program::spec_fold_step(lt@, m.len() as int + 1, rt_kfs, carried_old, gst)
                    == Ok::<(Seq<Keyframe>, Params, Settings), crate::program::ParseError>((
                    rt_kfs.push(kf2),
                    carried,
                    if first {
                        self.settings
                    } else {
                        gst
                    },
                )));
                // and the new trailing blank line, again a no-op
                crate::program::lemma_fold_lines_snoc(m.push(lt@), e, 0, Seq::empty(), d0, s0);
                rt_kfs = rt_kfs.push(kf2);
                gst = if first {
                    self.settings
                } else {
                    gst
                };
                assert(forall|j: int| 0 <= j < lt@.len() ==> #[trigger] lt@[j] < 128);
            }
            i = i + 1;
        }
        proof {
            assert(rt_kfs.len() == n);
            assert(crate::program::spec_parse(out@) == Ok::<
                (Seq<Keyframe>, Settings),
                crate::program::ParseError,
            >((rt_kfs, self.settings)));
        }
        let r = ascii_to_string(out);
        proof {
            let chars = r@;
            assert(chars.len() == out@.len());
            assert forall|j: int| 0 <= j < chars.len() implies '\0' <= #[trigger] chars[j]
                <= '\u{7f}' by {
                assert(chars[j] == out@[j] as char);
                assert(out@[j] < 128);
            }
            assert(vstd::utf8::is_ascii_chars(chars));
            vstd::utf8::is_ascii_chars_encode_utf8(chars);
            assert(vstd::utf8::encode_utf8(chars) =~= out@) by {
                assert(forall|j: int|
                    0 <= j < chars.len() ==> #[trigger] vstd::utf8::encode_utf8(chars)[j]
                        == chars[j] as u8);
                assert(forall|j: int|
                    0 <= j < chars.len() ==> (#[trigger] chars[j]) as u8 == out@[j]);
            };
            assert(keyframes_close(self.keyframes@, rt_kfs));
        }
        r
    }
}


/// Segment lookup depends only on the keyframe times.
proof fn lemma_seg_eq(a: Seq<Keyframe>, b: Seq<Keyframe>, t: int, i: int)
    requires
        a.len() == b.len(),
        forall|k: int| 0 <= k < a.len() ==> (#[trigger] a[k]).time == b[k].time,
        0 <= i,
    ensures
        crate::program::spec_seg_from(a, t, i) == crate::program::spec_seg_from(b, t, i),
    decreases a.len() - i,
{
    if i < a.len() - 1 {
        lemma_seg_eq(a, b, t, i + 1);
    }
}

/// A curve weight always lies in `[0, MICRO]`.
proof fn lemma_apply_range(cv: Curve, u: int)
    ensures
        0 <= cv.spec_apply(u) <= MICRO,
{
    let tc = if u < 0 {
        0
    } else if u > MICRO {
        MICRO as int
    } else {
        u
    };
    if cv == Curve::Smooth {
        let num = 3 * tc * tc * MICRO - 2 * tc * tc * tc;
        assert(0 <= num <= MICRO * MICRO * MICRO) by (nonlinear_arith)
            requires
                num == 3 * tc * tc * MICRO - 2 * tc * tc * tc,
                0 <= tc <= MICRO;
        assert(0 <= num / ((MICRO * MICRO) as int) <= MICRO) by {
            vstd::arithmetic::div_mod::lemma_div_pos_is_pos(num, (MICRO * MICRO) as int);
            vstd::arithmetic::div_mod::lemma_div_is_ordered(
                num,
                MICRO * MICRO * MICRO,
                (MICRO * MICRO) as int,
            );
            assert((MICRO * MICRO * MICRO) as int / ((MICRO * MICRO) as int) == MICRO)
                by (nonlinear_arith);
        };
    }
}

/// Interpolating between endpoints that each moved at most `eps` moves
/// the result at most `eps`.
proof fn lemma_blend_close(a: int, b: int, a2: int, b2: int, c: int, eps: int)
    requires
        0 <= a && 0 <= b && 0 <= a2 && 0 <= b2,
        -eps <= a - a2 <= eps,
        -eps <= b - b2 <= eps,
        0 <= c <= MICRO,
        0 <= eps,
    ensures
        -eps <= crate::units::spec_blend(a, b, c, MICRO as int) - crate::units::spec_blend(
            a2,
            b2,
            c,
            MICRO as int,
        ) <= eps,
{
    let m = MICRO as int;
    let na = a * (m - c) + b * c;
    let nb = a2 * (m - c) + b2 * c;
    assert(nb - eps * m <= na <= nb + eps * m) by (nonlinear_arith)
        requires
            na == a * (m - c) + b * c,
            nb == a2 * (m - c) + b2 * c,
            -eps <= a - a2 <= eps,
            -eps <= b - b2 <= eps,
            0 <= c <= m;
    vstd::arithmetic::div_mod::lemma_hoist_over_denominator(nb, eps, MICRO as nat);
    vstd::arithmetic::div_mod::lemma_hoist_over_denominator(nb, -eps, MICRO as nat);
    vstd::arithmetic::div_mod::lemma_div_is_ordered(nb - eps * m, na, m);
    vstd::arithmetic::div_mod::lemma_div_is_ordered(na, nb + eps * m, m);
    assert(nb + eps * m == nb + eps * m);
    assert((nb + eps * m) / m == nb / m + eps);
    assert((nb + (-eps) * m) / m == nb / m - eps) by {
        assert(nb + (-eps) * m == nb - eps * m) by (nonlinear_arith);
    };
}

/// Round-trip fidelity of the timeline: two well-formed programs whose
/// keyframe lists re-read as each other (as `to_source` guarantees of its
/// re-parse) resolve, at every time, parameters that agree within the
/// re-emission thresholds, with equal colors.
#[verifier::rlimit(100)]
pub proof fn lemma_roundtrip_params_at(p: &crate::program::Program, q: &crate::program::Program, t: int)
    requires
        p.wf(),
        q.wf(),
        keyframes_close(p.keyframes@, q.keyframes@),
    ensures
        params_close(p.spec_params_at(t), q.spec_params_at(t)),
{
    let a = p.keyframes@;
    let b = q.keyframes@;
    let n = a.len() as int;
    if n == 1 || t <= 0 {
        assert(params_close(a[0].params, b[0].params));
    } else if t >= a[n - 1].time {
        assert(params_close(a[n - 1].params, b[n - 1].params));
    } else {
        lemma_seg_eq(a, b, t, 1);
        let i = crate::program::spec_seg(a, t);
        crate::program::lemma_seg_in_range(a, t);
        let u = (t - a[i - 1].time) * MICRO / (a[i].time - a[i - 1].time);
        let c = a[i].curve.spec_apply(u);
        lemma_apply_range(a[i].curve, u);
        let pa = a[i - 1].params;
        let pb = a[i].params;
        let qa = b[i - 1].params;
        let qb = b[i].params;
        lemma_blend_close(
            pa.freq as int,
            pb.freq as int,
            qa.freq as int,
            qb.freq as int,
            c,
            FREQ_EPS as int,
        );
        lemma_blend_close(
            pa.tone as int,
            pb.tone as int,
            qa.tone as int,
            qb.tone as int,
            c,
            TONE_EPS as int,
        );
        lemma_blend_close(
            pa.vol as int,
            pb.vol as int,
            qa.vol as int,
            qb.vol as int,
            c,
            VOL_EPS as int,
        );
        lemma_blend_close(
            pa.duty as int,
            pb.duty as int,
            qa.duty as int,
            qb.duty as int,
            c,
            DUTY_EPS as int,
        );
        let m = MICRO as int;
        crate::units::lemma_spec_blend_range(pa.freq as int, pb.freq as int, c, m);
        crate::units::lemma_spec_blend_range(qa.freq as int, qb.freq as int, c, m);
        crate::units::lemma_spec_blend_range(pa.tone as int, pb.tone as int, c, m);
        crate::units::lemma_spec_blend_range(qa.tone as int, qb.tone as int, c, m);
        crate::units::lemma_spec_blend_range(pa.vol as int, pb.vol as int, c, m);
        crate::units::lemma_spec_blend_range(qa.vol as int, qb.vol as int, c, m);
        crate::units::lemma_spec_blend_range(pa.duty as int, pb.duty as int, c, m);
        crate::units::lemma_spec_blend_range(qa.duty as int, qb.duty as int, c, m);
    }
}

} // verus!
