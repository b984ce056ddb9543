use vstd::prelude::*;

use crate::units::{MICRO, NUM_MAX};

verus! {

/// Largest timestamp a program line may carry, in microseconds
/// (one million hours); keeps timestamp arithmetic and re-emission exact.
pub const TIME_MAX: u64 = 3_600_000_000_000_000;

/// Byte-for-byte equality of a vector and a slice.
#[verifier::loop_isolation(false)]
pub fn eq_bytes(a: &Vec<u8>, b: &[u8]) -> (r: bool)
    ensures
        r == (a@ == b@),
{
    if a.len() != b.len() {
        assert(a@ != b@);
        return false;
    }
    let n = a.len();
    let mut i: usize = 0;
    while i < n
        invariant
            i <= n,
            n == a@.len() && n == b@.len(),
            forall|j: int| 0 <= j < i ==> a@[j] == b@[j],
        decreases n - i,
    {
        if a[i] != b[i] {
            assert(a@ != b@);
            return false;
        }
        i = i + 1;
    }
    assert(a@ =~= b@);
    true
}

/// An ASCII byte the line format treats as blank space.
pub open spec fn is_ws(b: u8) -> bool {
    b == 32 || b == 9 || b == 13
}

/// An ASCII decimal digit.
pub open spec fn is_digit(b: u8) -> bool {
    ('0' as u8) <= b && b <= ('9' as u8)
}

/// The lines of a text: the segments between newline bytes. A text always
/// has at least one (possibly empty) line.
pub open spec fn spec_split_lines(s: Seq<u8>) -> Seq<Seq<u8>>
    decreases s.len(),
{
    if s.len() == 0 {
        seq![seq![]]
    } else {
        let pre = spec_split_lines(s.drop_last());
        if s.last() == 10 {
            pre.push(seq![])
        } else {
            pre.update(pre.len() - 1, pre.last().push(s.last()))
        }
    }
}

pub proof fn lemma_split_lines_len(s: Seq<u8>)
    ensures
        spec_split_lines(s).len() >= 1,
    decreases s.len(),
{
    if s.len() > 0 {
        lemma_split_lines_len(s.drop_last());
    }
}

/// Split a text into its lines.
#[verifier::loop_isolation(false)]
pub fn split_lines(s: &[u8]) -> (r: Vec<Vec<u8>>)
    ensures
        r@.map_values(|v: Vec<u8>| v@) == spec_split_lines(s@),
{
    let n = s.len();
    let mut done: Vec<Vec<u8>> = Vec::new();
    let mut cur: Vec<u8> = Vec::new();
    let mut i: usize = 0;
    while i < n
        invariant
            i <= n,
            n == s@.len(),
            spec_split_lines(s@.take(i as int)) == done@.map_values(|v: Vec<u8>| v@).push(cur@),
        decreases n - i,
    {
        proof {
            assert(s@.take(i + 1).drop_last() =~= s@.take(i as int));
            assert(s@.take(i + 1).last() == s@[i as int]);
        }
        if s[i] == 10 {
            done.push(cur);
            cur = Vec::new();
        } else {
            cur.push(s[i]);
            proof {
                let m = done@.map_values(|v: Vec<u8>| v@);
                assert(m.push(cur@) =~~= spec_split_lines(s@.take(i + 1)));
            }
        }
        proof {
            assert(done@.map_values(|v: Vec<u8>| v@).push(cur@) =~~= spec_split_lines(
                s@.take(i + 1),
            ));
        }
        i = i + 1;
    }
    proof {
        assert(s@.take(n as int) =~= s@);
    }
    done.push(cur);
    proof {
        assert(done@.map_values(|v: Vec<u8>| v@) =~~= spec_split_lines(s@));
    }
    done
}

/// Whitespace tokenizer state after a scan: the tokens seen so far, and
/// whether the scan stands inside a token.
pub open spec fn spec_tok_state(s: Seq<u8>) -> (Seq<Seq<u8>>, bool)
    decreases s.len(),
{
    if s.len() == 0 {
        (seq![], false)
    } else {
        let pre = spec_tok_state(s.drop_last());
        let b = s.last();
        if is_ws(b) {
            (pre.0, false)
        } else if pre.1 {
            (pre.0.update(pre.0.len() - 1, pre.0.last().push(b)), true)
        } else {
            (pre.0.push(seq![b]), true)
        }
    }
}

/// The whitespace-separated tokens of a line.
pub open spec fn spec_tokens(s: Seq<u8>) -> Seq<Seq<u8>> {
    spec_tok_state(s).0
}

pub proof fn lemma_tok_state_len(s: Seq<u8>)
    ensures
        spec_tok_state(s).1 ==> spec_tok_state(s).0.len() >= 1,
    decreases s.len(),
{
    if s.len() > 0 {
        lemma_tok_state_len(s.drop_last());
    }
}

/// Split a line into its whitespace-separated tokens.
#[verifier::loop_isolation(false)]
pub fn tokenize(s: &[u8]) -> (r: Vec<Vec<u8>>)
    ensures
        r@.map_values(|v: Vec<u8>| v@) == spec_tokens(s@),
{
    let n = s.len();
    let mut done: Vec<Vec<u8>> = Vec::new();
    let mut cur: Vec<u8> = Vec::new();
    let mut in_tok: bool = false;
    let mut i: usize = 0;
    while i < n
        invariant
            i <= n,
            n == s@.len(),
            in_tok == spec_tok_state(s@.take(i as int)).1,
            in_tok ==> spec_tok_state(s@.take(i as int)).0 == done@.map_values(
                |v: Vec<u8>| v@,
            ).push(cur@),
            !in_tok ==> spec_tok_state(s@.take(i as int)).0 == done@.map_values(|v: Vec<u8>| v@),
            !in_tok ==> cur@ == Seq::<u8>::empty(),
        decreases n - i,
    {
        proof {
            assert(s@.take(i + 1).drop_last() =~= s@.take(i as int));
            assert(s@.take(i + 1).last() == s@[i as int]);
            lemma_tok_state_len(s@.take(i as int));
        }
        let b = s[i];
        if b == 32 || b == 9 || b == 13 {
            if in_tok {
                done.push(cur);
                cur = Vec::new();
                in_tok = false;
            }
        } else {
            cur.push(b);
            if !in_tok {
                in_tok = true;
                proof {
                    assert(done@.map_values(|v: Vec<u8>| v@).push(cur@) =~~= spec_tok_state(
                        s@.take(i + 1),
                    ).0);
                }
            } else {
                proof {
                    assert(done@.map_values(|v: Vec<u8>| v@).push(cur@) =~~= spec_tok_state(
                        s@.take(i + 1),
                    ).0);
                }
            }
        }
        i = i + 1;
    }
    proof {
        assert(s@.take(n as int) =~= s@);
    }
    if in_tok {
        done.push(cur);
    }
    proof {
        assert(done@.map_values(|v: Vec<u8>| v@) =~~= spec_tokens(s@));
    }
    done
}

/// A line with its leading blank space removed.
pub open spec fn spec_trim_front(s: Seq<u8>) -> Seq<u8>
    decreases s.len(),
{
    if s.len() > 0 && is_ws(s[0]) {
        spec_trim_front(s.skip(1))
    } else {
        s
    }
}

pub proof fn lemma_trim_front_skip(s: Seq<u8>, k: int)
    requires
        0 <= k <= s.len(),
        forall|j: int| 0 <= j < k ==> is_ws(s[j]),
        k < s.len() ==> !is_ws(s[k]),
    ensures
        spec_trim_front(s) == s.skip(k),
    decreases k,
{
    if k == 0 {
        assert(s.skip(0) =~= s);
    } else {
        assert(is_ws(s[0]));
        lemma_trim_front_skip(s.skip(1), k - 1);
        assert(s.skip(1).skip(k - 1) =~= s.skip(k));
    }
}

/// Whether a line carries a keyframe at all: after leading blank space it
/// is non-empty and does not open a `#` or `//` comment.
pub open spec fn spec_significant(line: Seq<u8>) -> bool {
    let t = spec_trim_front(line);
    &&& t.len() > 0
    &&& t[0] != ('#' as u8)
    &&& !(t.len() >= 2 && t[0] == ('/' as u8) && t[1] == ('/' as u8))
}

/// Whether a line carries a keyframe (is neither blank nor a comment).
#[verifier::loop_isolation(false)]
pub fn line_significant(s: &[u8]) -> (r: bool)
    ensures
        r == spec_significant(s@),
{
    let n = s.len();
    let mut i: usize = 0;
    while i < n && (s[i] == 32 || s[i] == 9 || s[i] == 13)
        invariant
            i <= n,
            n == s@.len(),
            forall|j: int| 0 <= j < i ==> is_ws(s@[j]),
        decreases n - i,
    {
        i = i + 1;
    }
    proof {
        lemma_trim_front_skip(s@, i as int);
    }
    if i == n {
        return false;
    }
    if s[i] == ('#' as u8) {
        return false;
    }
    if s[i] == ('/' as u8) && i + 1 < n && s[i + 1] == ('/' as u8) {
        return false;
    }
    true
}

/// Index of the first occurrence of a byte, or `-1`.
pub open spec fn find_byte(s: Seq<u8>, b: u8) -> int
    decreases s.len(),
{
    if s.len() == 0 {
        -1
    } else if s[0] == b {
        0
    } else {
        let r = find_byte(s.skip(1), b);
        if r < 0 {
            -1
        } else {
            r + 1
        }
    }
}

pub proof fn lemma_find_byte(s: Seq<u8>, b: u8, k: int)
    requires
        0 <= k <= s.len(),
        forall|j: int| 0 <= j < k ==> s[j] != b,
        k < s.len() ==> s[k] == b,
    ensures
        find_byte(s, b) == if k < s.len() {
            k
        } else {
            -1
        },
    decreases k,
{
    if k == 0 {
        if s.len() > 0 && s[0] != b {
            lemma_find_byte_none(s.skip(1), b);
        }
    } else {
        lemma_find_byte(s.skip(1), b, k - 1);
        assert(forall|j: int| 0 <= j < k - 1 ==> s.skip(1)[j] == s[j + 1]);
    }
}

pub proof fn lemma_find_byte_none(s: Seq<u8>, b: u8)
    requires
        forall|j: int| 0 <= j < s.len() ==> s[j] != b,
    ensures
        find_byte(s, b) == -1,
    decreases s.len(),
{
    if s.len() > 0 {
        lemma_find_byte_none(s.skip(1), b);
    }
}

/// Find the first occurrence of a byte in a vector.
#[verifier::loop_isolation(false)]
pub fn find_byte_in(s: &Vec<u8>, b: u8) -> (r: Option<usize>)
    ensures
        match r {
            Some(i) => find_byte(s@, b) == i && i < s@.len(),
            None => find_byte(s@, b) == -1,
        },
{
    let n = s.len();
    let mut i: usize = 0;
    while i < n
        invariant
            i <= n,
            n == s@.len(),
            forall|j: int| 0 <= j < i ==> s@[j] != b,
        decreases n - i,
    {
        if s[i] == b {
            proof {
                lemma_find_byte(s@, b, i as int);
            }
            return Some(i);
        }
        i = i + 1;
    }
    proof {
        lemma_find_byte(s@, b, n as int);
    }
    None
}

/// Copy a sub-range of a byte vector.
#[verifier::loop_isolation(false)]
pub fn copy_range(s: &Vec<u8>, lo: usize, hi: usize) -> (r: Vec<u8>)
    requires
        lo <= hi <= s@.len(),
    ensures
        r@ == s@.subrange(lo as int, hi as int),
{
    let mut r: Vec<u8> = Vec::new();
    let mut i: usize = lo;
    while i < hi
        invariant
            lo <= i <= hi <= s@.len(),
            r@ == s@.subrange(lo as int, i as int),
        decreases hi - i,
    {
        r.push(s[i]);
        proof {
            assert(r@ =~= s@.subrange(lo as int, i + 1));
        }
        i = i + 1;
    }
    r
}

/// Value of a digit string read as a decimal integer.
pub open spec fn digits_val(s: Seq<u8>) -> int
    decreases s.len(),
{
    if s.len() == 0 {
        0
    } else {
        digits_val(s.drop_last()) * 10 + (s.last() - ('0' as u8))
    }
}

/// Every byte is a decimal digit.
pub open spec fn all_digits(s: Seq<u8>) -> bool {
    forall|i: int| 0 <= i < s.len() ==> is_digit(s[i])
}

/// Ten to the `k`.
pub open spec fn pow10(k: nat) -> int
    decreases k,
{
    if k == 0 {
        1
    } else {
        10 * pow10((k - 1) as nat)
    }
}

pub proof fn lemma_pow10_pos(k: nat)
    ensures
        pow10(k) >= 1,
    decreases k,
{
    if k > 0 {
        lemma_pow10_pos((k - 1) as nat);
    }
}

pub proof fn lemma_pow10_add(a: nat, b: nat)
    ensures
        pow10(a + b) == pow10(a) * pow10(b),
    decreases a,
{
    if a == 0 {
        assert(pow10(0 + b) == 1 * pow10(b));
    } else {
        lemma_pow10_add((a - 1) as nat, b);
        assert(pow10(((a - 1) + b) as nat) == pow10((a - 1) as nat) * pow10(b));
        assert(pow10(a + b) == 10 * pow10(((a - 1) + b) as nat));
        assert(10 * (pow10((a - 1) as nat) * pow10(b)) == (10 * pow10((a - 1) as nat)) * pow10(b))
            by (nonlinear_arith);
    }
}

pub proof fn lemma_digits_val_bound(s: Seq<u8>)
    requires
        all_digits(s),
    ensures
        0 <= digits_val(s) < pow10(s.len()),
    decreases s.len(),
{
    if s.len() > 0 {
        assert(all_digits(s.drop_last()));
        lemma_digits_val_bound(s.drop_last());
        assert(is_digit(s.last()));
    }
}

/// Value of fractional digits in micro-units: the first six digits, short
/// runs padded with zeros, further digits truncated.
pub open spec fn frac_val6(s: Seq<u8>) -> int {
    if s.len() >= 6 {
        digits_val(s.take(6))
    } else {
        digits_val(s) * pow10((6 - s.len()) as nat)
    }
}

pub proof fn lemma_frac_val6_nonneg(s: Seq<u8>)
    requires
        all_digits(s),
    ensures
        frac_val6(s) >= 0,
{
    if s.len() >= 6 {
        assert(all_digits(s.take(6)));
        lemma_digits_val_bound(s.take(6));
    } else {
        lemma_digits_val_bound(s);
        lemma_pow10_pos((6 - s.len()) as nat);
        let dv = digits_val(s);
        let pw = pow10((6 - s.len()) as nat);
        assert(dv * pw >= 0) by (nonlinear_arith)
            requires
                dv >= 0,
                pw >= 1;
    }
}

/// Value of a decimal literal `D+[.D*]` in micro-units, if the bytes are
/// one and its value stays within `NUM_MAX`. Fractional digits past the
/// sixth are truncated.
pub open spec fn spec_parse_number(s: Seq<u8>) -> Option<u64> {
    let d = find_byte(s, '.' as u8);
    if d < 0 {
        if s.len() > 0 && all_digits(s) && digits_val(s) * MICRO <= NUM_MAX {
            Some((digits_val(s) * MICRO) as u64)
        } else {
            None
        }
    } else {
        let ip = s.take(d);
        let fp = s.skip(d + 1);
        if d >= 1 && all_digits(ip) && all_digits(fp) && digits_val(ip) * MICRO + frac_val6(fp)
            <= NUM_MAX {
            Some((digits_val(ip) * MICRO + frac_val6(fp)) as u64)
        } else {
            None
        }
    }
}

/// Read the digit range `s[lo..hi]` as an integer, reporting only whether
/// the value stays within one million once it grows past it.
#[verifier::loop_isolation(false)]
fn scan_int(s: &Vec<u8>, lo: usize, hi: usize) -> (r: Option<(u64, bool)>)
    requires
        lo <= hi <= s@.len(),
    ensures
        match r {
            Some((v, big)) => {
                &&& all_digits(s@.subrange(lo as int, hi as int))
                &&& (!big ==> v == digits_val(s@.subrange(lo as int, hi as int)) && v <= 1_000_000)
                &&& (big ==> digits_val(s@.subrange(lo as int, hi as int)) > 1_000_000)
            },
            None => !all_digits(s@.subrange(lo as int, hi as int)),
        },
{
    let mut acc: u64 = 0;
    let mut big: bool = false;
    let mut i: usize = lo;
    while i < hi
        invariant
            lo <= i <= hi <= s@.len(),
            all_digits(s@.subrange(lo as int, i as int)),
            !big ==> acc == digits_val(s@.subrange(lo as int, i as int)) && acc <= 1_000_000,
            big ==> digits_val(s@.subrange(lo as int, i as int)) > 1_000_000,
        decreases hi - i,
    {
        let b = s[i];
        if !(('0' as u8) <= b && b <= ('9' as u8)) {
            proof {
                assert(!is_digit(s@.subrange(lo as int, hi as int)[i - lo]));
            }
            return None;
        }
        proof {
            assert(s@.subrange(lo as int, i + 1).drop_last() =~= s@.subrange(lo as int, i as int));
            assert(s@.subrange(lo as int, i + 1).last() == s@[i as int]);
        }
        if !big {
            let a2: u64 = acc * 10 + ((b - ('0' as u8)) as u64);
            if a2 > 1_000_000 {
                big = true;
            } else {
                acc = a2;
            }
        }
        i = i + 1;
    }
    proof {
        assert(s@.subrange(lo as int, hi as int) =~= s@.subrange(lo as int, i as int));
    }
    Some((acc, big))
}

/// Parse a decimal literal `D+[.D*]` from `s[lo..hi]` into micro-units.
/// Returns `None` on any other shape or on a value beyond `NUM_MAX`.
#[verifier::loop_isolation(false)]
pub fn parse_number_range(s: &Vec<u8>, lo: usize, hi: usize) -> (r: Option<u64>)
    requires
        lo <= hi <= s@.len(),
    ensures
        r == spec_parse_number(s@.subrange(lo as int, hi as int)),
        r is Some ==> r->0 <= NUM_MAX,
{
    let ghost t = s@.subrange(lo as int, hi as int);
    // locate a dot inside [lo, hi)
    let mut i: usize = lo;
    while i < hi && s[i] != ('.' as u8)
        invariant
            lo <= i <= hi <= s@.len(),
            forall|j: int| lo <= j < i ==> s@[j] != ('.' as u8),
        decreases hi - i,
    {
        i = i + 1;
    }
    let dot: usize = i;
    proof {
        if dot < hi {
            assert(forall|j: int| 0 <= j < dot - lo ==> t[j] != ('.' as u8));
            assert(t[dot - lo] == ('.' as u8));
            lemma_find_byte(t, '.' as u8, dot - lo);
        } else {
            assert(forall|j: int| 0 <= j < t.len() ==> t[j] != ('.' as u8));
            lemma_find_byte_none(t, '.' as u8);
        }
    }
    let ip_hi = dot;
    if ip_hi == lo {
        // no integer digits (empty token or leading dot)
        return None;
    }
    let int_part = match scan_int(s, lo, ip_hi) {
        Some(p) => p,
        None => {
            proof {
                if dot < hi {
                    assert(t.take(dot - lo) =~= s@.subrange(lo as int, ip_hi as int));
                } else {
                    assert(t =~= s@.subrange(lo as int, ip_hi as int));
                }
            }
            return None;
        },
    };
    proof {
        if dot < hi {
            assert(t.take(dot - lo) =~= s@.subrange(lo as int, ip_hi as int));
        } else {
            assert(t =~= s@.subrange(lo as int, ip_hi as int));
        }
    }
    let (ipv, big) = int_part;
    if big {
        proof {
            let dv = digits_val(s@.subrange(lo as int, ip_hi as int));
            assert(dv * MICRO > NUM_MAX) by (nonlinear_arith)
                requires
                    dv > 1_000_000,
                    MICRO == 1_000_000u64,
                    NUM_MAX == 1_000_000_000_000u64;
            if dot < hi {
                let fpx = t.skip(dot - lo + 1);
                if all_digits(fpx) {
                    lemma_frac_val6_nonneg(fpx);
                }
            }
        }
        return None;
    }

    if dot == hi {
        // pure integer
        let v: u64 = ipv * 1_000_000;
        if v > NUM_MAX {
            return None;
        }
        return Some(v);
    }

    // fractional digits
    let ghost fp = t.skip(dot - lo + 1);
    let fp_lo = dot + 1;
    proof {
        assert(fp =~= s@.subrange(fp_lo as int, hi as int));
    }
    let mut frac: u64 = 0;
    let mut j: usize = fp_lo;
    while j < hi && j - fp_lo < 6
        invariant
            fp_lo <= j <= hi <= s@.len(),
            j <= fp_lo + 6,
            all_digits(s@.subrange(fp_lo as int, j as int)),
            frac == digits_val(s@.subrange(fp_lo as int, j as int)),
            frac < pow10((j - fp_lo) as nat),
            j - fp_lo <= 6,
        decreases hi - j,
    {
        let b = s[j];
        if !(('0' as u8) <= b && b <= ('9' as u8)) {
            proof {
                assert(fp[j - fp_lo] == s@[j as int]);
                assert(!is_digit(fp[j - fp_lo]));
            }
            return None;
        }
        proof {
            assert(s@.subrange(fp_lo as int, j + 1).drop_last() =~= s@.subrange(
                fp_lo as int,
                j as int,
            ));
            assert(s@.subrange(fp_lo as int, j + 1).last() == s@[j as int]);
            lemma_digits_val_bound(s@.subrange(fp_lo as int, j + 1));
            reveal_with_fuel(pow10, 8);
        }
        frac = frac * 10 + ((b - ('0' as u8)) as u64);
        j = j + 1;
    }
    // validate any digits past the sixth
    let mut k: usize = j;
    while k < hi
        invariant
            j <= k <= hi <= s@.len(),
            forall|m: int| j <= m < k ==> is_digit(s@[m]),
        decreases hi - k,
    {
        let b = s[k];
        if !(('0' as u8) <= b && b <= ('9' as u8)) {
            proof {
                assert(fp[k - fp_lo] == s@[k as int]);
                assert(!is_digit(fp[k - fp_lo]));
            }
            return None;
        }
        k = k + 1;
    }
    proof {
        assert(forall|m: int| 0 <= m < fp.len() ==> fp[m] == s@[fp_lo + m]);
        assert(all_digits(fp));
    }
    // scale short fractions up to six digits
    let missing: usize = 6 - (j - fp_lo);
    let mult: u64 = if missing == 0 {
        1
    } else if missing == 1 {
        10
    } else if missing == 2 {
        100
    } else if missing == 3 {
        1_000
    } else if missing == 4 {
        10_000
    } else if missing == 5 {
        100_000
    } else {
        1_000_000
    };
    proof {
        reveal_with_fuel(pow10, 8);
        assert(mult == pow10(missing as nat));
    }
    let ghost got: nat = (j - fp_lo) as nat;
    proof {
        lemma_digits_val_bound(s@.subrange(fp_lo as int, j as int));
        lemma_pow10_pos(missing as nat);
        lemma_pow10_add(got, missing as nat);
        assert(frac * mult <= (pow10(got) - 1) * pow10(missing as nat)) by (nonlinear_arith)
            requires
                frac < pow10(got),
                mult == pow10(missing as nat),
                mult >= 1;
        assert((pow10(got) - 1) * pow10(missing as nat) == pow10(got) * pow10(missing as nat)
            - pow10(missing as nat)) by (nonlinear_arith);
        assert(pow10((got + missing) as nat) == pow10(6nat));
        reveal_with_fuel(pow10, 8);
        assert(frac * mult <= 1_000_000 - 1);
    }
    let frac6: u64 = frac * mult;
    proof {
        if fp.len() >= 6 {
            assert(j == fp_lo + 6);
            assert(fp.take(6) =~= s@.subrange(fp_lo as int, j as int));
            assert(frac6 == frac_val6(fp));
        } else {
            assert(j == hi);
            assert(fp =~= s@.subrange(fp_lo as int, j as int));
            assert(frac6 == frac_val6(fp));
        }
    }
    let v: u64 = ipv * 1_000_000 + frac6;
    if v > NUM_MAX {
        return None;
    }
    Some(v)
}

/// Value of a `MM:SS` or `HH:MM:SS` timestamp in microseconds, if the
/// bytes are one and the total stays within `TIME_MAX`. Each field is a
/// decimal literal; fractional seconds are allowed.
pub open spec fn spec_parse_timestamp(s: Seq<u8>) -> Option<u64> {
    let c1 = find_byte(s, ':' as u8);
    if c1 < 0 {
        None
    } else {
        let first = s.take(c1);
        let rest = s.skip(c1 + 1);
        let c2 = find_byte(rest, ':' as u8);
        if c2 < 0 {
            match (spec_parse_number(first), spec_parse_number(rest)) {
                (Some(m), Some(sec)) => {
                    let v = m * 60 + sec;
                    if v <= TIME_MAX {
                        Some(v as u64)
                    } else {
                        None
                    }
                },
                _ => None,
            }
        } else {
            let mid = rest.take(c2);
            let last = rest.skip(c2 + 1);
            if find_byte(last, ':' as u8) >= 0 {
                None
            } else {
                match (spec_parse_number(first), spec_parse_number(mid), spec_parse_number(last)) {
                    (Some(h), Some(m), Some(sec)) => {
                        let v = h * 3600 + m * 60 + sec;
                        if v <= TIME_MAX {
                            Some(v as u64)
                        } else {
                            None
                        }
                    },
                    _ => None,
                }
            }
        }
    }
}

/// Parse a `MM:SS` or `HH:MM:SS` timestamp into microseconds.
#[verifier::rlimit(50)]
#[verifier::loop_isolation(false)]
pub fn parse_timestamp(s: &Vec<u8>) -> (r: Option<u64>)
    ensures
        r == spec_parse_timestamp(s@),
{
    let n = s.len();
    let c1 = match find_byte_in(s, ':' as u8) {
        Some(i) => i,
        None => {
            return None;
        },
    };
    let ghost first = s@.take(c1 as int);
    let ghost rest = s@.skip(c1 + 1);
    // find a second colon after the first
    let mut i: usize = c1 + 1;
    while i < n && s[i] != (':' as u8)
        invariant
            c1 + 1 <= i <= n,
            n == s@.len(),
            forall|j: int| c1 + 1 <= j < i ==> s@[j] != (':' as u8),
        decreases n - i,
    {
        i = i + 1;
    }
    let c2: usize = i;
    proof {
        assert(forall|j: int| 0 <= j < rest.len() ==> rest[j] == s@[c1 + 1 + j]);
        if c2 < n {
            lemma_find_byte(rest, ':' as u8, c2 - c1 - 1);
        } else {
            lemma_find_byte_none(rest, ':' as u8);
        }
    }
    if c2 == n {
        // MM:SS
        let m = match parse_number_range(s, 0, c1) {
            Some(v) => v,
            None => {
                proof {
                    assert(first =~= s@.subrange(0, c1 as int));
                }
                return None;
            },
        };
        proof {
            assert(first =~= s@.subrange(0, c1 as int));
        }
        let sec = match parse_number_range(s, c1 + 1, n) {
            Some(v) => v,
            None => {
                proof {
                    assert(rest =~= s@.subrange(c1 + 1, n as int));
                }
                return None;
            },
        };
        proof {
            assert(rest =~= s@.subrange(c1 + 1, n as int));
        }
        let v: u64 = m * 60 + sec;
        if v > TIME_MAX {
            return None;
        }
        Some(v)
    } else {
        // HH:MM:SS; reject a fourth field
        let mut k: usize = c2 + 1;
        let ghost last = rest.skip(c2 - c1);
        proof {
            assert(forall|j: int| 0 <= j < last.len() ==> last[j] == s@[c2 + 1 + j]);
        }
        while k < n
            invariant
                c2 + 1 <= k <= n,
                n == s@.len(),
                forall|j: int| c2 + 1 <= j < k ==> s@[j] != (':' as u8),
            decreases n - k,
        {
            if s[k] == (':' as u8) {
                proof {
                    lemma_find_byte(last, ':' as u8, k - c2 - 1);
                }
                return None;
            }
            k = k + 1;
        }
        proof {
            lemma_find_byte_none(last, ':' as u8);
            assert(rest.take(c2 - c1 - 1) =~= s@.subrange(c1 + 1, c2 as int));
        }
        let h = match parse_number_range(s, 0, c1) {
            Some(v) => v,
            None => {
                proof {
                    assert(first =~= s@.subrange(0, c1 as int));
                }
                return None;
            },
        };
        proof {
            assert(first =~= s@.subrange(0, c1 as int));
        }
        let m = match parse_number_range(s, c1 + 1, c2) {
            Some(v) => v,
            None => {
                return None;
            },
        };
        let sec = match parse_number_range(s, c2 + 1, n) {
            Some(v) => v,
            None => {
                proof {
                    assert(last =~= s@.subrange(c2 + 1, n as int));
                }
                return None;
            },
        };
        proof {
            assert(last =~= s@.subrange(c2 + 1, n as int));
        }
        let v: u64 = h * 3600 + m * 60 + sec;
        if v > TIME_MAX {
            return None;
        }
        Some(v)
    }
}

} // verus!
