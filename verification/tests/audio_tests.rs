use isochronator::engine::{AudioEngine, SampleCtl};
use isochronator::params::Params;
use isochronator::program::{Program, Settings};
use isochronator::sync::SyncState;
use isochronator::units::{MICRO, NANO};
use isochronator::visuals::{clear_color, get_on_ratio, TimingState};

fn test_program() -> Program {
    Program::constant(Params::default(), Settings::default())
}

#[test]
fn engine_produces_output() {
    let mut engine = AudioEngine::new(48000, test_program(), SyncState::new());

    let mut buffer: Vec<SampleCtl> = Vec::new();
    engine.process(512, &mut buffer);

    // some non-zero gains must come out of the default program
    assert!(buffer.iter().any(|s| s.left_gain > 0));

    // the sync snapshot is updated
    assert!(engine.sync.frames_written > 0);
    assert_eq!(engine.sync.buffer_frames, 512);
}

#[test]
fn phase_wraps_correctly() {
    let mut engine = AudioEngine::new(48000, test_program(), SyncState::new());

    let mut buffer: Vec<SampleCtl> = Vec::new();
    // process many buffers (a second each) to accumulate phase
    for _ in 0..100 {
        engine.process(24000, &mut buffer);
    }

    // phases stay inside one cycle
    assert!(engine.left_phase < NANO);
    assert!(engine.pulse_phase < NANO);
    for s in &buffer {
        assert!(s.left_phase < NANO);
        assert!(s.right_phase < NANO);
    }
}

#[test]
fn sync_state_latency_compensation() {
    let mut sync = SyncState::new();
    sync.sample_rate = 48000;
    sync.buffer_frames = 1024;
    sync.frames_written = 48000; // one second written
    sync.phase_nanos = NANO / 2;

    // playback time is one second minus the buffer's latency
    let t = sync.playback_time_micros();
    assert_eq!(t, 978_666); // floor((48000 - 1024) * 1e6 / 48000)
    let expected = 1.0 - 1024.0 / 48000.0;
    assert!((t as f64 / 1e6 - expected).abs() < 0.001);

    // the visual phase at 10 Hz is rewound by the same latency
    let phase = sync.visual_phase_nanos(10_000_000);
    assert!(phase < NANO);
    assert_eq!(phase, 286_666_667); // 0.5 - 10 * 1024/48000 cycles, mod 1
}

#[test]
fn sync_state_idle_is_zero() {
    let sync = SyncState::new();
    assert_eq!(sync.playback_time_micros(), 0);
    assert_eq!(sync.visual_phase_nanos(10_000_000), 0);
}

#[test]
fn binaural_channels_beat() {
    let program = Program::parse("00:00 freq=10 tone=200 vol=1 binaural").unwrap();
    let mut engine = AudioEngine::new(48000, program, SyncState::new());
    let mut buffer: Vec<SampleCtl> = Vec::new();
    engine.process(480, &mut buffer);

    assert_eq!(buffer.len(), 480);
    // both channels carry the full volume
    assert!(buffer.iter().all(|s| s.left_gain == MICRO && s.right_gain == MICRO));
    // the right channel advances faster: 210 Hz against 200 Hz
    assert_eq!(buffer[1].left_phase, 200_000_000 * 1000 / 48000);
    assert_eq!(buffer[1].right_phase, 210_000_000 * 1000 / 48000);
    assert!(engine.right_phase != engine.left_phase);
}

#[test]
fn isochronic_envelope_gates_gain() {
    // 1 Hz pulse at 48 kHz: the duty window is the first half cycle
    let program = Program::parse("00:00 freq=1 tone=100 vol=1 duty=0.5").unwrap();
    let mut engine = AudioEngine::new(48000, program, SyncState::new());
    let mut buffer: Vec<SampleCtl> = Vec::new();
    engine.process(48000, &mut buffer);

    // mid-window samples are at full gain, late samples fully gated
    assert_eq!(buffer[12000].left_gain, MICRO);
    assert_eq!(buffer[40000].left_gain, 0);
}

#[test]
fn on_ratio_integral() {
    // period 1.0 s, pulse 0.5 s
    let timing = TimingState::new(1_000_000, 500_000);
    assert_eq!(timing.period_micros, 1_000_000);
    assert_eq!(timing.pulse_duration_micros, 500_000);

    // interval [0.25, 0.75): on for 0.25 s of 0.5 s
    assert_eq!(get_on_ratio(250_000, 750_000, &timing), 500_000);
    // fully inside the on window
    assert_eq!(get_on_ratio(100_000, 400_000, &timing), MICRO);
    // fully inside the off window
    assert_eq!(get_on_ratio(600_000, 900_000, &timing), 0);
    // empty interval
    assert_eq!(get_on_ratio(500_000, 500_000, &timing), 0);
}

#[test]
fn clear_color_blends_off_to_on() {
    let p = Params::default();
    assert_eq!(clear_color(&p, 0), p.off);
    assert_eq!(clear_color(&p, MICRO), p.on);
}
