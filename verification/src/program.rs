use vstd::prelude::*;
use vstd::string::StringSliceAdditionalSpecFns;

use crate::color::{spec_parse_color, parse_color_bytes, Color};
use crate::curve::Curve;
use crate::params::Params;
use crate::text::{
    eq_bytes, find_byte, find_byte_in, copy_range, line_significant, parse_timestamp, parse_number_range,
    spec_parse_number, spec_parse_timestamp, spec_significant, spec_split_lines, spec_tokens,
    split_lines, tokenize, TIME_MAX,
};
use crate::units::MICRO;
use crate::params::{DUTY_MAX, DUTY_MIN};

verus! {

/// Session-level settings, set only by the program's first line.
#[derive(Debug, Clone, Copy, PartialEq, Eq, Structural)]
pub struct Settings {
    /// Use binaural beats instead of isochronic tones.
    pub binaural: bool,
    /// Disable visual output (audio only).
    pub headless: bool,
}

impl Settings {
    /// Both flags off, as a specification value.
    pub open spec fn spec_default() -> Settings {
        Settings { binaural: false, headless: false }
    }
}

impl Default for Settings {
    fn default() -> (r: Self)
        ensures
            r == Settings::spec_default(),
    {
        Settings { binaural: false, headless: false }
    }
}

/// A single keyframe: a timestamp in microseconds, the full parameter set
/// in force from that time, and the curve shaping the approach to it.
#[derive(Debug, Clone, Copy, PartialEq, Eq, Structural)]
pub struct Keyframe {
    /// Time of this keyframe in microseconds.
    pub time: u64,
    /// Parameter values that hold at (and after) this keyframe.
    pub params: Params,
    /// Interpolation curve applied on the way into this keyframe.
    pub curve: Curve,
}

/// What a program line was rejected for.
#[derive(Debug, Clone, Copy, PartialEq, Eq, Structural)]
pub enum ParseErrorKind {
    /// A keyframe line carries no tokens at all.
    MissingTimestamp,
    /// The first token is not a `MM:SS` / `HH:MM:SS` timestamp in range.
    InvalidTimestamp,
    /// A numeric value is not a decimal literal in range.
    InvalidNumber,
    /// `freq` was set to zero.
    NonPositiveFreq,
    /// `tone` was set to zero.
    NonPositiveTone,
    /// A color value is not a six-digit hex string.
    InvalidColor,
    /// A `key=value` token names no known parameter.
    UnknownKey,
    /// A `>curve` token names no known curve.
    UnknownCurve,
    /// A bare token names no known setting.
    UnknownSetting,
    /// A settings flag appeared past the first keyframe line.
    SettingAfterFirstLine,
    /// The first keyframe's timestamp is not zero.
    FirstKeyframeNotZero,
    /// A keyframe's timestamp does not exceed its predecessor's.
    TimestampsNotIncreasing,
    /// The program holds no keyframe line at all.
    EmptyProgram,
}

/// A rejected program: the offending line (1-based; 0 for an empty
/// program) and what was wrong with it.
#[derive(Debug, Clone, Copy, PartialEq, Eq, Structural)]
pub struct ParseError {
    /// 1-based number of the offending line; 0 when the program is empty.
    pub line: usize,
    /// What the line was rejected for.
    pub kind: ParseErrorKind,
}

pub open spec fn kw_freq() -> Seq<u8> {
    seq!['f' as u8, 'r' as u8, 'e' as u8, 'q' as u8]
}

pub open spec fn kw_tone() -> Seq<u8> {
    seq!['t' as u8, 'o' as u8, 'n' as u8, 'e' as u8]
}

pub open spec fn kw_vol() -> Seq<u8> {
    seq!['v' as u8, 'o' as u8, 'l' as u8]
}

pub open spec fn kw_duty() -> Seq<u8> {
    seq!['d' as u8, 'u' as u8, 't' as u8, 'y' as u8]
}

pub open spec fn kw_on() -> Seq<u8> {
    seq!['o' as u8, 'n' as u8]
}

pub open spec fn kw_off() -> Seq<u8> {
    seq!['o' as u8, 'f' as u8, 'f' as u8]
}

pub open spec fn kw_binaural() -> Seq<u8> {
    seq!['b' as u8, 'i' as u8, 'n' as u8, 'a' as u8, 'u' as u8, 'r' as u8, 'a' as u8, 'l' as u8]
}

pub open spec fn kw_headless() -> Seq<u8> {
    seq!['h' as u8, 'e' as u8, 'a' as u8, 'd' as u8, 'l' as u8, 'e' as u8, 's' as u8, 's' as u8]
}

/// Effect of one line token on the running parse state.
pub open spec fn spec_token(
    t: Seq<u8>,
    cur: Params,
    st: Settings,
    curve: Curve,
    is_first: bool,
) -> Result<(Params, Settings, Curve), ParseErrorKind> {
    if t.len() > 0 && t[0] == ('>' as u8) {
        match Curve::spec_parse(t.skip(1)) {
            Some(c) => Ok((cur, st, c)),
            None => Err(ParseErrorKind::UnknownCurve),
        }
    } else {
        let e = find_byte(t, '=' as u8);
        if e >= 0 {
            let key = t.take(e);
            let val = t.skip(e + 1);
            if key == kw_freq() {
                match spec_parse_number(val) {
                    Some(v) => if v == 0 {
                        Err(ParseErrorKind::NonPositiveFreq)
                    } else {
                        Ok((Params { freq: v, ..cur }, st, curve))
                    },
                    None => Err(ParseErrorKind::InvalidNumber),
                }
            } else if key == kw_tone() {
                match spec_parse_number(val) {
                    Some(v) => if v == 0 {
                        Err(ParseErrorKind::NonPositiveTone)
                    } else {
                        Ok((Params { tone: v, ..cur }, st, curve))
                    },
                    None => Err(ParseErrorKind::InvalidNumber),
                }
            } else if key == kw_vol() {
                match spec_parse_number(val) {
                    Some(v) => Ok(
                        (Params { vol: if v > MICRO { MICRO as u64 } else { v }, ..cur }, st, curve),
                    ),
                    None => Err(ParseErrorKind::InvalidNumber),
                }
            } else if key == kw_duty() {
                match spec_parse_number(val) {
                    Some(v) => {
                        let d = if v < DUTY_MIN {
                            DUTY_MIN as u64
                        } else if v > DUTY_MAX {
                            DUTY_MAX as u64
                        } else {
                            v
                        };
                        Ok((Params { duty: d, ..cur }, st, curve))
                    },
                    None => Err(ParseErrorKind::InvalidNumber),
                }
            } else if key == kw_on() {
                match spec_parse_color(val) {
                    Some(c) => Ok((Params { on: c, ..cur }, st, curve)),
                    None => Err(ParseErrorKind::InvalidColor),
                }
            } else if key == kw_off() {
                match spec_parse_color(val) {
                    Some(c) => Ok((Params { off: c, ..cur }, st, curve)),
                    None => Err(ParseErrorKind::InvalidColor),
                }
            } else {
                Err(ParseErrorKind::UnknownKey)
            }
        } else {
            if !is_first {
                Err(ParseErrorKind::SettingAfterFirstLine)
            } else if t == kw_binaural() {
                Ok((cur, Settings { binaural: true, ..st }, curve))
            } else if t == kw_headless() {
                Ok((cur, Settings { headless: true, ..st }, curve))
            } else {
                Err(ParseErrorKind::UnknownSetting)
            }
        }
    }
}

/// Effect of the tokens from position `i` on of a line on the running
/// parse state.
pub open spec fn spec_line_tokens(
    toks: Seq<Seq<u8>>,
    i: int,
    cur: Params,
    st: Settings,
    curve: Curve,
    is_first: bool,
) -> Result<(Params, Settings, Curve), ParseErrorKind>
    decreases toks.len() - i,
{
    if i < 0 || i >= toks.len() {
        Ok((cur, st, curve))
    } else {
        match spec_token(toks[i], cur, st, curve, is_first) {
            Err(k) => Err(k),
            Ok((c2, s2, cv2)) => spec_line_tokens(toks, i + 1, c2, s2, cv2, is_first),
        }
    }
}

/// What one keyframe line means: the keyframe it yields and the parameter
/// and settings state it leaves behind, or the error it is rejected with.
pub open spec fn spec_parse_line(
    line: Seq<u8>,
    cur: Params,
    st: Settings,
    is_first: bool,
) -> Result<(Keyframe, Params, Settings), ParseErrorKind> {
    let toks = spec_tokens(line);
    if toks.len() == 0 {
        Err(ParseErrorKind::MissingTimestamp)
    } else {
        match spec_parse_timestamp(toks[0]) {
            None => Err(ParseErrorKind::InvalidTimestamp),
            Some(time) => match spec_line_tokens(toks, 1, cur, st, Curve::Step, is_first) {
                Err(k) => Err(k),
                Ok((c2, s2, curve)) => Ok((Keyframe { time, params: c2, curve }, c2, s2)),
            },
        }
    }
}

/// Apply one token to the running state.
#[verifier::loop_isolation(false)]
fn apply_token(
    t: &Vec<u8>,
    cur: &mut Params,
    st: &mut Settings,
    curve: &mut Curve,
    is_first: bool,
) -> (r: Result<(), ParseErrorKind>)
    requires
        old(cur).wf(),
    ensures
        match r {
            Ok(()) => spec_token(t@, *old(cur), *old(st), *old(curve), is_first) == Ok::<
                _,
                ParseErrorKind,
            >((*final(cur), *final(st), *final(curve))) && final(cur).wf(),
            Err(k) => spec_token(t@, *old(cur), *old(st), *old(curve), is_first) == Err::<
                (Params, Settings, Curve),
                _,
            >(k),
        },
{
    let n = t.len();
    if n > 0 && t[0] == ('>' as u8) {
        let name = copy_range(t, 1, n);
        proof {
            assert(name@ =~= t@.skip(1));
        }
        match Curve::parse_bytes(name.as_slice()) {
            Some(c) => {
                *curve = c;
                Ok(())
            },
            None => Err(ParseErrorKind::UnknownCurve),
        }
    } else {
        match find_byte_in(t, '=' as u8) {
            Some(e) => {
                let key = copy_range(t, 0, e);
                let ghost val = t@.skip(e + 1);
                proof {
                    assert(key@ =~= t@.take(e as int));
                    assert(val =~= t@.subrange(e + 1, n as int));
                }
                if eq_bytes(&key, &['f' as u8, 'r' as u8, 'e' as u8, 'q' as u8]) {
                    proof {
                        assert(key@ =~= kw_freq());
                    }
                    match parse_number_range(t, e + 1, n) {
                        Some(v) => {
                            if v == 0 {
                                Err(ParseErrorKind::NonPositiveFreq)
                            } else {
                                cur.freq = v;
                                Ok(())
                            }
                        },
                        None => Err(ParseErrorKind::InvalidNumber),
                    }
                } else if eq_bytes(&key, &['t' as u8, 'o' as u8, 'n' as u8, 'e' as u8]) {
                    proof {
                        assert(key@ =~= kw_tone());
                        assert(key@ != kw_freq());
                    }
                    match parse_number_range(t, e + 1, n) {
                        Some(v) => {
                            if v == 0 {
                                Err(ParseErrorKind::NonPositiveTone)
                            } else {
                                cur.tone = v;
                                Ok(())
                            }
                        },
                        None => Err(ParseErrorKind::InvalidNumber),
                    }
                } else if eq_bytes(&key, &['v' as u8, 'o' as u8, 'l' as u8]) {
                    proof {
                        assert(key@ =~= kw_vol());
                        assert(key@ != kw_freq() && key@ != kw_tone());
                    }
                    match parse_number_range(t, e + 1, n) {
                        Some(v) => {
                            cur.vol = if v > MICRO {
                                MICRO
                            } else {
                                v
                            };
                            Ok(())
                        },
                        None => Err(ParseErrorKind::InvalidNumber),
                    }
                } else if eq_bytes(&key, &['d' as u8, 'u' as u8, 't' as u8, 'y' as u8]) {
                    proof {
                        assert(key@ =~= kw_duty());
                        assert(key@ != kw_freq() && key@ != kw_tone() && key@ != kw_vol());
                    }
                    match parse_number_range(t, e + 1, n) {
                        Some(v) => {
                            cur.duty = if v < DUTY_MIN {
                                DUTY_MIN
                            } else if v > DUTY_MAX {
                                DUTY_MAX
                            } else {
                                v
                            };
                            Ok(())
                        },
                        None => Err(ParseErrorKind::InvalidNumber),
                    }
                } else if eq_bytes(&key, &['o' as u8, 'n' as u8]) {
                    proof {
                        assert(key@ =~= kw_on());
                        assert(key@ != kw_freq() && key@ != kw_tone() && key@ != kw_vol() && key@
                            != kw_duty());
                    }
                    let vb = copy_range(t, e + 1, n);
                    match parse_color_bytes(vb.as_slice()) {
                        Some(c) => {
                            cur.on = c;
                            Ok(())
                        },
                        None => Err(ParseErrorKind::InvalidColor),
                    }
                } else if eq_bytes(&key, &['o' as u8, 'f' as u8, 'f' as u8]) {
                    proof {
                        assert(key@ =~= kw_off());
                        assert(key@ != kw_freq() && key@ != kw_tone() && key@ != kw_vol() && key@
                            != kw_duty() && key@ != kw_on());
                    }
                    let vb = copy_range(t, e + 1, n);
                    match parse_color_bytes(vb.as_slice()) {
                        Some(c) => {
                            cur.off = c;
                            Ok(())
                        },
                        None => Err(ParseErrorKind::InvalidColor),
                    }
                } else {
                    proof {
                        assert(key@ != kw_freq() && key@ != kw_tone() && key@ != kw_vol() && key@
                            != kw_duty() && key@ != kw_on() && key@ != kw_off());
                    }
                    Err(ParseErrorKind::UnknownKey)
                }
            },
            None => {
                if !is_first {
                    Err(ParseErrorKind::SettingAfterFirstLine)
                } else if eq_bytes(
                    t,
                    &['b' as u8, 'i' as u8, 'n' as u8, 'a' as u8, 'u' as u8, 'r' as u8, 'a' as u8, 'l' as u8],
                ) {
                    proof {
                        assert(t@ =~= kw_binaural());
                    }
                    st.binaural = true;
                    Ok(())
                } else if eq_bytes(
                    t,
                    &['h' as u8, 'e' as u8, 'a' as u8, 'd' as u8, 'l' as u8, 'e' as u8, 's' as u8, 's' as u8],
                ) {
                    proof {
                        assert(t@ =~= kw_headless());
                        assert(t@ != kw_binaural());
                    }
                    st.headless = true;
                    Ok(())
                } else {
                    proof {
                        assert(t@ != kw_binaural() && t@ != kw_headless());
                    }
                    Err(ParseErrorKind::UnknownSetting)
                }
            },
        }
    }
}

/// Parse one keyframe line, updating the running parameters and settings.
#[verifier::loop_isolation(false)]
fn parse_line(
    line: &Vec<u8>,
    cur: &mut Params,
    st: &mut Settings,
    is_first: bool,
) -> (r: Result<Keyframe, ParseErrorKind>)
    requires
        old(cur).wf(),
    ensures
        match r {
            Ok(kf) => spec_parse_line(line@, *old(cur), *old(st), is_first) == Ok::<
                _,
                ParseErrorKind,
            >((kf, *final(cur), *final(st))) && kf.params == *final(cur) && final(cur).wf() && kf.time <= TIME_MAX,
            Err(k) => spec_parse_line(line@, *old(cur), *old(st), is_first) == Err::<
                (Keyframe, Params, Settings),
                _,
            >(k),
        },
{
    let toks = tokenize(line.as_slice());
    let ghost tseq = toks@.map_values(|v: Vec<u8>| v@);
    let nt = toks.len();
    if nt == 0 {
        return Err(ParseErrorKind::MissingTimestamp);
    }
    let time = match parse_timestamp(&toks[0]) {
        Some(v) => v,
        None => {
            return Err(ParseErrorKind::InvalidTimestamp);
        },
    };
    let mut curve: Curve = Curve::Step;
    let mut i: usize = 1;
    let ghost cur0 = *cur;
    let ghost st0 = *st;
    while i < nt
        invariant
            1 <= i <= nt,
            cur.wf(),
            spec_line_tokens(tseq, 1, cur0, st0, Curve::Step, is_first) == spec_line_tokens(
                tseq,
                i as int,
                *cur,
                *st,
                curve,
                is_first,
            ),
        decreases nt - i,
    {
        proof {
            assert(tseq[i as int] == toks@[i as int]@);
        }
        match apply_token(&toks[i], cur, st, &mut curve, is_first) {
            Ok(()) => {},
            Err(k) => {
                return Err(k);
            },
        }
        i = i + 1;
    }
    Ok(Keyframe { time, params: *cur, curve })
}


/// An entrainment program: an ordered keyframe list, session settings,
/// and the session's duration.
#[derive(Debug, Clone)]
pub struct Program {
    /// The keyframes, in strictly increasing time order, first at zero.
    pub keyframes: Vec<Keyframe>,
    /// Session-level settings from the first line.
    pub settings: Settings,
    /// Time of the last keyframe in microseconds, or `None` when the
    /// program holds a single keyframe and runs unbounded.
    pub duration: Option<u64>,
    /// Hint for accelerating sequential lookups; never authoritative.
    pub cached_index: usize,
}

impl Program {
    /// Structural invariant: at least one keyframe, the first at time
    /// zero, times strictly increasing and within `TIME_MAX`, every
    /// parameter set well-formed, and the duration derived from the last
    /// keyframe.
    pub open spec fn wf(self) -> bool {
        let kfs = self.keyframes@;
        &&& kfs.len() > 0
        &&& kfs[0].time == 0
        &&& forall|i: int| 0 <= i < kfs.len() - 1 ==> kfs[i].time < #[trigger] kfs[i + 1].time
        &&& forall|i: int| 0 <= i < kfs.len() ==> (#[trigger] kfs[i]).params.wf()
        &&& forall|i: int| 0 <= i < kfs.len() ==> (#[trigger] kfs[i]).time <= TIME_MAX
        &&& self.duration == if kfs.len() > 1 {
            Some(kfs[kfs.len() - 1].time)
        } else {
            None::<u64>
        }
    }
}

/// Effect of one line, at 1-based number `lineno`, on the running parse
/// state: skipped when blank or a comment, else a new keyframe or the
/// error the line is rejected with.
pub open spec fn spec_fold_step(
    line: Seq<u8>,
    lineno: int,
    kfs: Seq<Keyframe>,
    cur: Params,
    st: Settings,
) -> Result<(Seq<Keyframe>, Params, Settings), ParseError> {
    if !spec_significant(line) {
        Ok((kfs, cur, st))
    } else {
        let is_first = kfs.len() == 0;
        match spec_parse_line(line, cur, st, is_first) {
            Err(k) => Err(ParseError { line: lineno as usize, kind: k }),
            Ok((kf, c2, s2)) => {
                if kfs.len() > 0 && kf.time <= kfs.last().time {
                    Err(
                        ParseError {
                            line: lineno as usize,
                            kind: ParseErrorKind::TimestampsNotIncreasing,
                        },
                    )
                } else if kfs.len() == 0 && kf.time != 0 {
                    Err(
                        ParseError {
                            line: lineno as usize,
                            kind: ParseErrorKind::FirstKeyframeNotZero,
                        },
                    )
                } else {
                    Ok((kfs.push(kf), c2, s2))
                }
            },
        }
    }
}

/// The lines from position `i` on, folded over the running parse state.
/// Line numbers are 1-based.
pub open spec fn spec_fold_lines(
    lines: Seq<Seq<u8>>,
    i: int,
    kfs: Seq<Keyframe>,
    cur: Params,
    st: Settings,
) -> Result<(Seq<Keyframe>, Params, Settings), ParseError>
    decreases lines.len() - i,
{
    if i < 0 || i >= lines.len() {
        Ok((kfs, cur, st))
    } else {
        match spec_fold_step(lines[i], i + 1, kfs, cur, st) {
            Err(e) => Err(e),
            Ok((k2, c2, s2)) => spec_fold_lines(lines, i + 1, k2, c2, s2),
        }
    }
}

/// Folding one more line at the end first folds the others.
#[verifier::rlimit(100)]
pub proof fn lemma_fold_lines_snoc(
    lines: Seq<Seq<u8>>,
    l: Seq<u8>,
    i: int,
    kfs: Seq<Keyframe>,
    cur: Params,
    st: Settings,
)
    requires
        0 <= i <= lines.len(),
    ensures
        spec_fold_lines(lines.push(l), i, kfs, cur, st) == match spec_fold_lines(
            lines,
            i,
            kfs,
            cur,
            st,
        ) {
            Ok((k2, c2, s2)) => spec_fold_step(l, lines.len() as int + 1, k2, c2, s2),
            Err(e) => Err(e),
        },
    decreases lines.len() - i,
{
    if i < lines.len() {
        assert(lines.push(l)[i] == lines[i]);
        match spec_fold_step(lines[i], i + 1, kfs, cur, st) {
            Err(e) => {},
            Ok((k2, c2, s2)) => {
                lemma_fold_lines_snoc(lines, l, i + 1, k2, c2, s2);
            },
        }
    } else {
        assert(lines.push(l)[i] == l);
        reveal_with_fuel(spec_fold_lines, 3);
    }
}

/// Folding one more token at the end first folds the others.
pub proof fn lemma_line_tokens_snoc(
    toks: Seq<Seq<u8>>,
    t: Seq<u8>,
    i: int,
    cur: Params,
    st: Settings,
    curve: Curve,
    is_first: bool,
)
    requires
        0 <= i <= toks.len(),
    ensures
        spec_line_tokens(toks.push(t), i, cur, st, curve, is_first) == match spec_line_tokens(
            toks,
            i,
            cur,
            st,
            curve,
            is_first,
        ) {
            Ok((c2, s2, cv2)) => spec_token(t, c2, s2, cv2, is_first),
            Err(k) => Err(k),
        },
    decreases toks.len() - i,
{
    if i < toks.len() {
        assert(toks.push(t)[i] == toks[i]);
        match spec_token(toks[i], cur, st, curve, is_first) {
            Err(k) => {},
            Ok((c2, s2, cv2)) => {
                lemma_line_tokens_snoc(toks, t, i + 1, c2, s2, cv2, is_first);
            },
        }
    } else {
        assert(toks.push(t)[i] == t);
        reveal_with_fuel(spec_line_tokens, 3);
    }
}

/// What a program text means: its keyframes and settings, or the first
/// error in it.
pub open spec fn spec_parse(src: Seq<u8>) -> Result<(Seq<Keyframe>, Settings), ParseError> {
    match spec_fold_lines(
        spec_split_lines(src),
        0,
        Seq::empty(),
        Params::spec_default(),
        Settings::spec_default(),
    ) {
        Err(e) => Err(e),
        Ok((kfs, cur, st)) => {
            if kfs.len() == 0 {
                Err(ParseError { line: 0, kind: ParseErrorKind::EmptyProgram })
            } else {
                Ok((kfs, st))
            }
        },
    }
}

impl Program {
    /// Parse a program from source text: one keyframe per line, `//` and
    /// `#` comments and blank lines ignored; the first keyframe must lie
    /// at `00:00`, timestamps must strictly increase, settings flags may
    /// only appear on the first line, and an empty program is rejected.
    /// The first offending line is reported.
    #[verifier::loop_isolation(false)]
    pub fn parse(source: &str) -> (r: Result<Program, ParseError>)
        ensures
            match r {
                Ok(p) => spec_parse(source.spec_bytes()) == Ok::<_, ParseError>(
                    (p.keyframes@, p.settings),
                ) && p.wf(),
                Err(e) => spec_parse(source.spec_bytes()) == Err::<
                    (Seq<Keyframe>, Settings),
                    _,
                >(e),
            },
    {
        let lines = split_lines(source.as_bytes());
        let ghost lseq = lines@.map_values(|v: Vec<u8>| v@);
        let n = lines.len();
        let mut kfs: Vec<Keyframe> = Vec::new();
        let mut cur: Params = Params::default();
        let mut st: Settings = Settings::default();
        let mut i: usize = 0;
        while i < n
            invariant
                i <= n,
                n == lines@.len(),
                cur.wf(),
                spec_fold_lines(lseq, 0, Seq::empty(), Params::spec_default(), Settings::spec_default())
                    == spec_fold_lines(lseq, i as int, kfs@, cur, st),
                kfs@.len() > 0 ==> kfs@[0].time == 0,
                forall|k: int|
                    0 <= k < kfs@.len() - 1 ==> kfs@[k].time < #[trigger] kfs@[k + 1].time,
                forall|k: int| 0 <= k < kfs@.len() ==> (#[trigger] kfs@[k]).params.wf(),
                forall|k: int| 0 <= k < kfs@.len() ==> (#[trigger] kfs@[k]).time <= TIME_MAX,
            decreases n - i,
        {
            proof {
                assert(lseq[i as int] == lines@[i as int]@);
            }
            if line_significant(lines[i].as_slice()) {
                let is_first = kfs.len() == 0;
                let kf = match parse_line(&lines[i], &mut cur, &mut st, is_first) {
                    Ok(kf) => kf,
                    Err(k) => {
                        return Err(ParseError { line: i + 1, kind: k });
                    },
                };
                if kfs.len() > 0 {
                    let last = kfs[kfs.len() - 1];
                    if kf.time <= last.time {
                        return Err(
                            ParseError {
                                line: i + 1,
                                kind: ParseErrorKind::TimestampsNotIncreasing,
                            },
                        );
                    }
                } else {
                    if kf.time != 0 {
                        return Err(
                            ParseError { line: i + 1, kind: ParseErrorKind::FirstKeyframeNotZero },
                        );
                    }
                }
                kfs.push(kf);
            }
            i = i + 1;
        }
        if kfs.len() == 0 {
            return Err(ParseError { line: 0, kind: ParseErrorKind::EmptyProgram });
        }
        let nk = kfs.len();
        let duration: Option<u64> = if nk > 1 {
            Some(kfs[nk - 1].time)
        } else {
            None
        };
        Ok(Program { keyframes: kfs, settings: st, duration, cached_index: 0 })
    }
}


/// First keyframe index at or after `i` whose time exceeds `t`, or the
/// last index when none does.
pub open spec fn spec_seg_from(kfs: Seq<Keyframe>, t: int, i: int) -> int
    decreases kfs.len() - i,
{
    if i >= kfs.len() - 1 {
        kfs.len() - 1
    } else if t < kfs[i].time {
        i
    } else {
        spec_seg_from(kfs, t, i + 1)
    }
}

/// The keyframe index a mid-program time interpolates toward: the first
/// index whose time exceeds `t`.
pub open spec fn spec_seg(kfs: Seq<Keyframe>, t: int) -> int {
    spec_seg_from(kfs, t, 1)
}

/// Times at earlier indices are smaller in a sorted keyframe list.
pub proof fn lemma_times_sorted(kfs: Seq<Keyframe>, i: int, j: int)
    requires
        forall|k: int| 0 <= k < kfs.len() - 1 ==> kfs[k].time < #[trigger] kfs[k + 1].time,
        0 <= i <= j < kfs.len(),
    ensures
        kfs[i].time <= kfs[j].time,
        i < j ==> kfs[i].time < kfs[j].time,
    decreases j - i,
{
    if i < j {
        lemma_times_sorted(kfs, i, j - 1);
        assert(kfs[(j - 1) + 1].time > kfs[j - 1].time);
    }
}

/// In a sorted keyframe list the bracketing index is unique, so a found
/// bracket is the segment index.
pub proof fn lemma_seg_unique(kfs: Seq<Keyframe>, t: int, idx: int, i: int)
    requires
        forall|k: int| 0 <= k < kfs.len() - 1 ==> kfs[k].time < #[trigger] kfs[k + 1].time,
        1 <= i <= idx < kfs.len(),
        kfs[idx - 1].time <= t,
        t < kfs[idx].time,
    ensures
        spec_seg_from(kfs, t, i) == idx,
    decreases idx - i,
{
    if i < idx {
        lemma_times_sorted(kfs, i, idx - 1);
        assert(kfs[i].time <= kfs[idx - 1].time);
        lemma_seg_unique(kfs, t, idx, i + 1);
    }
}

/// The segment lookup lands on a bracketing index when the time lies
/// strictly inside the program.
pub proof fn lemma_seg_in_range(kfs: Seq<Keyframe>, t: int)
    requires
        forall|k: int| 0 <= k < kfs.len() - 1 ==> kfs[k].time < #[trigger] kfs[k + 1].time,
        kfs.len() > 1,
        kfs[0].time <= t,
        t < kfs[kfs.len() - 1].time,
    ensures
        1 <= spec_seg(kfs, t) < kfs.len(),
        kfs[spec_seg(kfs, t) - 1].time <= t,
        t < kfs[spec_seg(kfs, t)].time,
{
    lemma_seg_from_range(kfs, t, 1);
}

proof fn lemma_seg_from_range(kfs: Seq<Keyframe>, t: int, i: int)
    requires
        forall|k: int| 0 <= k < kfs.len() - 1 ==> kfs[k].time < #[trigger] kfs[k + 1].time,
        1 <= i < kfs.len(),
        kfs[i - 1].time <= t,
        t < kfs[kfs.len() - 1].time,
    ensures
        i <= spec_seg_from(kfs, t, i) < kfs.len(),
        kfs[spec_seg_from(kfs, t, i) - 1].time <= t,
        t < kfs[spec_seg_from(kfs, t, i)].time,
    decreases kfs.len() - i,
{
    if i >= kfs.len() - 1 {
    } else if t < kfs[i].time {
    } else {
        lemma_seg_from_range(kfs, t, i + 1);
    }
}

impl Program {
    /// The interpolated parameters at time `t` (microseconds, as a
    /// mathematical integer): the first keyframe's parameters at or
    /// before time zero or for a single-keyframe program, the last
    /// keyframe's at or past the end, and otherwise the curve-shaped
    /// blend across the surrounding segment.
    pub open spec fn spec_params_at(self, t: int) -> Params {
        let kfs = self.keyframes@;
        let n = kfs.len() as int;
        if n == 1 || t <= 0 {
            kfs[0].params
        } else if t >= kfs[n - 1].time {
            kfs[n - 1].params
        } else {
            let i = spec_seg(kfs, t);
            let from = kfs[i - 1];
            let to = kfs[i];
            let u = (t - from.time) * MICRO / (to.time - from.time);
            Params::spec_lerp(from.params, to.params, to.curve.spec_apply(u))
        }
    }
}

/// Interpolate inside the segment ending at `idx`, which must bracket
/// `time`.
#[verifier::loop_isolation(false)]
fn interp_at(kfs: &Vec<Keyframe>, idx: usize, time: u64) -> (r: Params)
    requires
        forall|k: int| 0 <= k < kfs@.len() - 1 ==> kfs@[k].time < #[trigger] kfs@[k + 1].time,
        forall|k: int| 0 <= k < kfs@.len() ==> (#[trigger] kfs@[k]).params.wf(),
        forall|k: int| 0 <= k < kfs@.len() ==> (#[trigger] kfs@[k]).time <= TIME_MAX,
        1 <= idx < kfs@.len(),
        kfs@[idx - 1].time <= time < kfs@[idx as int].time,
    ensures
        r == ({
            let from = kfs@[idx - 1];
            let to = kfs@[idx as int];
            let u = (time - from.time) * MICRO / (to.time - from.time);
            Params::spec_lerp(from.params, to.params, to.curve.spec_apply(u))
        }),
        r.wf(),
{
    let from = kfs[idx - 1];
    let to = kfs[idx];
    let span: u64 = to.time - from.time;
    let dt: u64 = time - from.time;
    let u128v: u128 = (dt as u128) * (MICRO as u128) / (span as u128);
    proof {
        assert(dt * MICRO < span * MICRO) by (nonlinear_arith)
            requires
                dt < span,
                MICRO >= 1;
        vstd::arithmetic::div_mod::lemma_multiply_divide_lt(dt * MICRO, span as int, MICRO as int);
    }
    let u: u64 = u128v as u64;
    let w = to.curve.apply(u);
    Params::lerp(&from.params, &to.params, w)
}

impl Program {
    /// Find the keyframe index whose segment brackets `time` by binary
    /// search: the first index whose time exceeds `time`.
    #[verifier::loop_isolation(false)]
    fn find_segment(&self, time: u64) -> (idx: usize)
        requires
            self.wf(),
            self.keyframes@.len() > 1,
            0 < time < self.keyframes@[self.keyframes@.len() - 1].time,
        ensures
            1 <= idx < self.keyframes@.len(),
            self.keyframes@[idx - 1].time <= time < self.keyframes@[idx as int].time,
            spec_seg(self.keyframes@, time as int) == idx,
    {
        let ghost kfs = self.keyframes@;
        let n = self.keyframes.len();
        let mut lo: usize = 0;
        let mut hi: usize = n;
        while lo < hi
            invariant
                0 <= lo <= hi <= n,
                forall|k: int| 0 <= k < lo ==> (#[trigger] kfs[k]).time <= time,
                forall|k: int| hi <= k < n ==> (#[trigger] kfs[k]).time > time,
            decreases hi - lo,
        {
            let mid = lo + (hi - lo) / 2;
            if self.keyframes[mid].time <= time {
                proof {
                    assert forall|k: int| 0 <= k < mid + 1 implies (#[trigger] kfs[k]).time
                        <= time by {
                        lemma_times_sorted(kfs, k, mid as int);
                    }
                }
                lo = mid + 1;
            } else {
                proof {
                    assert forall|k: int| mid <= k < n implies (#[trigger] kfs[k]).time > time by {
                        lemma_times_sorted(kfs, mid as int, k);
                    }
                }
                hi = mid;
            }
        }
        proof {
            if lo == 0 {
                assert(kfs[0].time > time);
            }
            if lo == n {
                assert(kfs[n - 1].time <= time);
            }
            lemma_seg_unique(kfs, time as int, lo as int, 1);
        }
        lo
    }

    /// Get the interpolated parameters at `time` microseconds. Total:
    /// times at or before zero give the first keyframe, times at or past
    /// the program's end give the last.
    pub fn params_at(&self, time: u64) -> (r: Params)
        requires
            self.wf(),
        ensures
            r == self.spec_params_at(time as int),
            r.wf(),
    {
        let n = self.keyframes.len();
        if n == 1 || time == 0 {
            return self.keyframes[0].params;
        }
        if time >= self.keyframes[n - 1].time {
            return self.keyframes[n - 1].params;
        }
        let idx = self.find_segment(time);
        interp_at(&self.keyframes, idx, time)
    }

    /// Get the interpolated parameters at `time` microseconds, reusing
    /// and updating the lookup hint. The hint only accelerates the
    /// search: the result always equals `params_at` on the same time.
    pub fn params_at_cached(&mut self, time: u64) -> (r: Params)
        requires
            old(self).wf(),
        ensures
            r == old(self).spec_params_at(time as int),
            r.wf(),
            final(self).wf(),
            final(self).keyframes == old(self).keyframes,
            final(self).settings == old(self).settings,
            final(self).duration == old(self).duration,
    {
        let n = self.keyframes.len();
        if n == 1 || time == 0 {
            return self.keyframes[0].params;
        }
        if time >= self.keyframes[n - 1].time {
            return self.keyframes[n - 1].params;
        }
        let hint = self.cached_index;
        let valid = 1 <= hint && hint < n && self.keyframes[hint - 1].time <= time && time
            < self.keyframes[hint].time;
        let idx: usize = if valid {
            proof {
                lemma_seg_unique(self.keyframes@, time as int, hint as int, 1);
            }
            hint
        } else {
            let found = self.find_segment(time);
            self.cached_index = found;
            found
        };
        interp_at(&self.keyframes, idx, time)
    }

    /// A constant program: one keyframe at time zero holding `params`
    /// forever, with unbounded duration.
    pub fn constant(params: Params, settings: Settings) -> (p: Program)
        requires
            params.wf(),
        ensures
            p.wf(),
            p.keyframes@ =~= seq![Keyframe { time: 0u64, params, curve: Curve::Step }],
            p.settings == settings,
            p.duration is None,
            forall|t: int| p.spec_params_at(t) == params,
    {
        let mut kfs: Vec<Keyframe> = Vec::new();
        kfs.push(Keyframe { time: 0, params, curve: Curve::Step });
        Program { keyframes: kfs, settings, duration: None, cached_index: 0 }
    }
}

} // verus!
