use isochronator::color::{parse_color, Color};
use isochronator::params::Params;
use isochronator::program::Settings;
use isochronator::curve::Curve;
use isochronator::program::{ParseErrorKind, Program};
use isochronator::units::MICRO;

#[test]
fn parse_simple_program() {
    let program = Program::parse("00:00 freq=20 vol=0\n00:10 vol=1 >linear").unwrap();
    assert_eq!(program.keyframes.len(), 2);
    assert_eq!(program.duration, Some(10_000_000));
}

#[test]
fn linear_interpolation() {
    let program = Program::parse("00:00 freq=20 vol=0\n00:10 vol=1 >linear").unwrap();

    assert_eq!(program.params_at(0).vol, 0);
    assert_eq!(program.params_at(5_000_000).vol, 500_000);
    assert_eq!(program.params_at(10_000_000).vol, 1_000_000);
    assert_eq!(program.params_at(15_000_000).vol, 1_000_000); // past end
}

#[test]
fn smooth_interpolation() {
    let program = Program::parse("00:00 freq=1\n00:10 freq=100 >smooth").unwrap();

    // smoothstep is exactly one half at the midpoint: 1 + 99 * 0.5 Hz
    let mid = program.params_at(5_000_000).freq;
    assert_eq!(mid, 50_500_000);

    // slower at the edges than linear would be
    let early = program.params_at(1_000_000).freq;
    assert!(early < 10_000_000);
    assert_eq!(early, 3_772_000); // 1 + 99 * smoothstep(0.1) Hz
}

#[test]
fn settings_only_at_start() {
    let r = Program::parse("00:00 freq=10\n00:10 binaural");
    assert!(r.is_err());
    let e = r.unwrap_err();
    assert_eq!(e.kind, ParseErrorKind::SettingAfterFirstLine);
    assert_eq!(e.line, 2);
}

#[test]
fn first_keyframe_must_be_zero() {
    let r = Program::parse("00:05 freq=10");
    assert!(r.is_err());
    assert_eq!(r.unwrap_err().kind, ParseErrorKind::FirstKeyframeNotZero);
}

#[test]
fn timestamps_must_increase() {
    let r = Program::parse("00:00 freq=10\n00:05 vol=1\n00:03 vol=0");
    assert!(r.is_err());
    let e = r.unwrap_err();
    assert_eq!(e.kind, ParseErrorKind::TimestampsNotIncreasing);
    assert_eq!(e.line, 3);
}

#[test]
fn curve_functions() {
    // step curve
    assert_eq!(Curve::Step.apply(0), 0);
    assert_eq!(Curve::Step.apply(500_000), 0);
    assert_eq!(Curve::Step.apply(MICRO), MICRO);

    // linear curve
    assert_eq!(Curve::Linear.apply(0), 0);
    assert_eq!(Curve::Linear.apply(500_000), 500_000);
    assert_eq!(Curve::Linear.apply(MICRO), MICRO);

    // smooth curve (smoothstep)
    assert_eq!(Curve::Smooth.apply(0), 0);
    assert_eq!(Curve::Smooth.apply(500_000), 500_000);
    assert_eq!(Curve::Smooth.apply(MICRO), MICRO);
}

#[test]
fn color_parsing() {
    assert_eq!(
        parse_color("#FF0000").unwrap(),
        Color { r: 255, g: 0, b: 0, a: 255 }
    );
    assert_eq!(
        parse_color("00FF00").unwrap(),
        Color { r: 0, g: 255, b: 0, a: 255 }
    );
    assert!(parse_color("invalid").is_err());
    assert!(parse_color("#FFF").is_err());
}

#[test]
fn roundtrip_to_source() {
    let original = "00:00 freq=10.00 tone=200 vol=0.50 duty=0.50 on=#FFFFFF off=#000000\n\
                    00:10 vol=1.00 >linear\n";
    let program = Program::parse(original).unwrap();
    let exported = program.to_source();

    // the exported source parses again and resolves the same parameters
    let reparsed = Program::parse(&exported).unwrap();
    let p1 = program.params_at(5_000_000);
    let p2 = reparsed.params_at(5_000_000);

    assert!(p1.freq.abs_diff(p2.freq) < 10_000);
    assert!(p1.vol.abs_diff(p2.vol) < 10_000);
}

#[test]
fn roundtrip_keeps_sparse_fields() {
    let src = "00:00 freq=7.25 tone=432.5 vol=0.33 duty=0.61 on=#12AB34 off=#000102 binaural\n\
               00:30 freq=3 >smooth\n\
               01:00 vol=0 >linear\n";
    let program = Program::parse(src).unwrap();
    let exported = program.to_source();
    let reparsed = Program::parse(&exported).unwrap();
    assert_eq!(reparsed.keyframes.len(), 3);
    assert!(reparsed.settings.binaural);
    for (a, b) in program.keyframes.iter().zip(reparsed.keyframes.iter()) {
        assert_eq!(a.time, b.time);
        assert_eq!(a.curve, b.curve);
        assert!(a.params.freq.abs_diff(b.params.freq) <= 1_000);
        assert!(a.params.tone.abs_diff(b.params.tone) <= 100_000);
        assert!(a.params.vol.abs_diff(b.params.vol) <= 1_000);
        assert!(a.params.duty.abs_diff(b.params.duty) <= 1_000);
        assert_eq!(a.params.on, b.params.on);
        assert_eq!(a.params.off, b.params.off);
    }
}

#[test]
fn comments_and_blank_lines_are_skipped() {
    let src = "// header comment\n\n# another\n00:00 freq=5\n\n00:10 vol=0.9\n";
    let program = Program::parse(src).unwrap();
    assert_eq!(program.keyframes.len(), 2);
    assert_eq!(program.keyframes[0].params.freq, 5_000_000);
    assert_eq!(program.keyframes[1].params.vol, 900_000);
}

#[test]
fn parse_error_variants() {
    assert_eq!(
        Program::parse("").unwrap_err().kind,
        ParseErrorKind::EmptyProgram
    );
    assert_eq!(
        Program::parse("00:00 freq=abc").unwrap_err().kind,
        ParseErrorKind::InvalidNumber
    );
    assert_eq!(
        Program::parse("banana freq=1").unwrap_err().kind,
        ParseErrorKind::InvalidTimestamp
    );
    assert_eq!(
        Program::parse("00:00 freq=0").unwrap_err().kind,
        ParseErrorKind::NonPositiveFreq
    );
    assert_eq!(
        Program::parse("00:00 tone=0").unwrap_err().kind,
        ParseErrorKind::NonPositiveTone
    );
    assert_eq!(
        Program::parse("00:00 on=#GG0000").unwrap_err().kind,
        ParseErrorKind::InvalidColor
    );
    assert_eq!(
        Program::parse("00:00 pitch=3").unwrap_err().kind,
        ParseErrorKind::UnknownKey
    );
    assert_eq!(
        Program::parse("00:00 >bounce").unwrap_err().kind,
        ParseErrorKind::UnknownCurve
    );
    assert_eq!(
        Program::parse("00:00 turbo").unwrap_err().kind,
        ParseErrorKind::UnknownSetting
    );
}

#[test]
fn values_are_clamped_not_rejected() {
    let program = Program::parse("00:00 vol=7 duty=0.001").unwrap();
    assert_eq!(program.keyframes[0].params.vol, 1_000_000);
    assert_eq!(program.keyframes[0].params.duty, 10_000);
}

#[test]
fn hour_timestamps() {
    let program = Program::parse("00:00 freq=10\n01:02:03.5 vol=0").unwrap();
    let t = program.keyframes[1].time;
    assert_eq!(t, (3600 + 2 * 60 + 3) * 1_000_000 + 500_000);
}

#[test]
fn cached_lookup_matches_search() {
    let mut program = Program::parse("00:00 vol=0\n00:10 vol=1 >linear\n00:20 vol=0 >linear").unwrap();
    for t in [0u64, 3_000_000, 9_999_999, 10_000_000, 15_000_000, 25_000_000] {
        let plain = program.params_at(t);
        let cached = program.params_at_cached(t);
        assert_eq!(plain, cached);
    }
    // backwards queries still agree after the hint moved forward
    let plain = program.params_at(2_500_000);
    let cached = program.params_at_cached(2_500_000);
    assert_eq!(plain, cached);
}

#[test]
fn constant_program_holds_params() {
    let p = Params::default();
    let program = Program::constant(p, Settings::default());
    assert_eq!(program.duration, None);
    assert_eq!(program.params_at(0), p);
    assert_eq!(program.params_at(123_456_789), p);
}

#[test]
fn color_lerp_linear_light() {
    let black = Color { r: 0, g: 0, b: 0, a: 255 };
    let white = Color { r: 255, g: 255, b: 255, a: 255 };
    assert_eq!(Color::lerp(black, white, 0), black);
    assert_eq!(Color::lerp(black, white, MICRO), white);
    // the linear-light midpoint of black and white is light gray
    let mid = Color::lerp(black, white, 500_000);
    assert_eq!(mid, Color { r: 188, g: 188, b: 188, a: 255 });
}
