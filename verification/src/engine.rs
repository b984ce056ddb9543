use vstd::prelude::*;

use crate::curve::Curve;
use crate::params::Params;
use crate::program::Program;
use crate::sync::SyncState;
use crate::units::{blend64, spec_blend, MICRO, NANO};

verus! {

/// Largest frame count a single audio buffer may carry.
pub const MAX_BUFFER: u64 = 16_777_216;

/// One output frame in control form: oscillator phases in nano-cycles and
/// channel gains in micro-units. The audio edge renders a channel as
/// `sin(2*pi*phase/NANO) * gain/MICRO`; a mono sink averages the two
/// channels. Isochronic frames carry the same phase and gain twice.
#[derive(Debug, Clone, Copy, PartialEq, Eq, Structural)]
pub struct SampleCtl {
    /// Left oscillator phase in nano-cycles, in `[0, NANO)`.
    pub left_phase: u64,
    /// Right oscillator phase in nano-cycles, in `[0, NANO)`.
    pub right_phase: u64,
    /// Left channel gain in micro-units of `[0, 1]`.
    pub left_gain: u64,
    /// Right channel gain in micro-units of `[0, 1]`.
    pub right_gain: u64,
}

/// Time in microseconds after `frames` frames at `rate` Hz, saturating at
/// the top of the scale.
pub open spec fn spec_time_us(frames: int, rate: int) -> int {
    let v = frames * MICRO / rate;
    if v > u64::MAX {
        u64::MAX as int
    } else {
        v
    }
}

/// Phase increment at buffer position `i` of `n`, in nano-cycles per
/// sample: the buffer-local linear blend of two carrier frequencies plus
/// the blend of two offset frequencies (zero when unused), over the rate.
pub open spec fn spec_inc(
    ta: int,
    tb: int,
    fa: int,
    fb: int,
    n: int,
    rate: int,
    i: int,
) -> int {
    (spec_blend(ta, tb, i, n) + spec_blend(fa, fb, i, n)) * 1000 / rate
}

/// Phase accumulator after `i` steps from `p0`, each step adding the
/// position's increment and wrapping into `[0, NANO)`.
pub open spec fn spec_phase_at(
    p0: int,
    ta: int,
    tb: int,
    fa: int,
    fb: int,
    n: int,
    rate: int,
    i: nat,
) -> int
    decreases i,
{
    if i == 0 {
        p0
    } else {
        (spec_phase_at(p0, ta, tb, fa, fb, n, rate, (i - 1) as nat) + spec_inc(
            ta,
            tb,
            fa,
            fb,
            n,
            rate,
            i - 1,
        )) % (NANO as int)
    }
}

/// Isochronic pulse envelope in micro-units: zero past the duty window,
/// otherwise a smoothstep-shaped trapezoid whose ramp is a tenth of a
/// cycle or half the duty window, whichever is shorter. `pp` is the pulse
/// phase in nano-cycles, `duty` the duty cycle in micro-units.
pub open spec fn spec_env(pp: int, duty: int) -> int {
    let duty_n = duty * 1000;
    if pp >= duty_n {
        0
    } else {
        let ramp = if duty_n / 2 < 100_000_000 {
            duty_n / 2
        } else {
            100_000_000
        };
        let attack = if pp * MICRO / ramp > MICRO {
            MICRO as int
        } else {
            pp * MICRO / ramp
        };
        let release = if (duty_n - pp) * MICRO / ramp > MICRO {
            MICRO as int
        } else {
            (duty_n - pp) * MICRO / ramp
        };
        let linear = if attack < release {
            attack
        } else {
            release
        };
        Curve::Smooth.spec_apply(linear)
    }
}

/// The isochronic pulse envelope (see [`spec_env`]).
pub fn envelope(pp: u64, duty: u64) -> (r: u64)
    requires
        pp < NANO,
        crate::params::DUTY_MIN <= duty <= crate::params::DUTY_MAX,
    ensures
        r == spec_env(pp as int, duty as int),
        r <= MICRO,
{
    let duty_n: u64 = duty * 1000;
    if pp >= duty_n {
        return 0;
    }
    let half: u64 = duty_n / 2;
    let ramp: u64 = if half < 100_000_000 {
        half
    } else {
        100_000_000
    };
    let attack_raw: u64 = pp * MICRO / ramp;
    let attack: u64 = if attack_raw > MICRO {
        MICRO
    } else {
        attack_raw
    };
    let release_raw: u64 = (duty_n - pp) * MICRO / ramp;
    let release: u64 = if release_raw > MICRO {
        MICRO
    } else {
        release_raw
    };
    let linear: u64 = if attack < release {
        attack
    } else {
        release
    };
    Curve::Smooth.apply(linear)
}

/// The control frame emitted at buffer position `i` of `n`, interpolating
/// the boundary parameter sets `ps` and `pe` across the buffer.
pub open spec fn spec_sample_at(
    e: AudioEngine,
    ps: Params,
    pe: Params,
    n: int,
    i: int,
) -> SampleCtl {
    let rate = e.sample_rate as int;
    let vol = spec_blend(ps.vol as int, pe.vol as int, i, n);
    if e.program.settings.binaural {
        let lp = spec_phase_at(
            e.left_phase as int,
            ps.tone as int,
            pe.tone as int,
            0,
            0,
            n,
            rate,
            i as nat,
        );
        let rp = spec_phase_at(
            e.right_phase as int,
            ps.tone as int,
            pe.tone as int,
            ps.freq as int,
            pe.freq as int,
            n,
            rate,
            i as nat,
        );
        SampleCtl {
            left_phase: lp as u64,
            right_phase: rp as u64,
            left_gain: vol as u64,
            right_gain: vol as u64,
        }
    } else {
        let tp = spec_phase_at(
            e.left_phase as int,
            ps.tone as int,
            pe.tone as int,
            0,
            0,
            n,
            rate,
            i as nat,
        );
        let pp = spec_phase_at(
            e.pulse_phase as int,
            ps.freq as int,
            pe.freq as int,
            0,
            0,
            n,
            rate,
            i as nat,
        );
        let duty = spec_blend(ps.duty as int, pe.duty as int, i, n);
        let g = spec_env(pp, duty) * vol / (MICRO as int);
        SampleCtl {
            left_phase: tp as u64,
            right_phase: tp as u64,
            left_gain: g as u64,
            right_gain: g as u64,
        }
    }
}

/// The synthesis engine: turns the timeline's parameter curve into a
/// stream of control frames under bounded per-sample arithmetic, and
/// publishes its playback position and pulse phase after every buffer.
#[derive(Debug, Clone)]
pub struct AudioEngine {
    /// Device sample rate in Hz, fixed for the engine's lifetime.
    pub sample_rate: u32,
    /// The timeline driving the parameters (mode fixed by its settings).
    pub program: Program,
    /// The playback snapshot updated after every buffer.
    pub sync: SyncState,
    /// Left (binaural) or carrier (isochronic) phase, nano-cycles.
    pub left_phase: u64,
    /// Right-channel phase in nano-cycles; used in binaural mode only.
    pub right_phase: u64,
    /// Pulse or beat phase in nano-cycles.
    pub pulse_phase: u64,
    /// Total frames synthesized so far.
    pub frame_count: u64,
}

impl AudioEngine {
    /// Engine invariant: a running rate, a well-formed program, and all
    /// phase accumulators inside one cycle.
    pub open spec fn wf(self) -> bool {
        &&& self.sample_rate >= 1
        &&& self.program.wf()
        &&& self.left_phase < NANO
        &&& self.right_phase < NANO
        &&& self.pulse_phase < NANO
    }

    /// A fresh engine at frame zero, with the device rate recorded in the
    /// sync snapshot before anything is published.
    pub fn new(sample_rate: u32, program: Program, sync: SyncState) -> (e: AudioEngine)
        requires
            sample_rate >= 1,
            program.wf(),
        ensures
            e.wf(),
            e.sample_rate == sample_rate,
            e.program == program,
            e.sync == (SyncState { sample_rate: sample_rate, ..sync }),
            e.left_phase == 0 && e.right_phase == 0 && e.pulse_phase == 0,
            e.frame_count == 0,
    {
        AudioEngine {
            sample_rate,
            program,
            sync: SyncState { sample_rate, ..sync },
            left_phase: 0,
            right_phase: 0,
            pulse_phase: 0,
            frame_count: 0,
        }
    }
}


/// The engine's three phase accumulators after one whole buffer:
/// left/carrier, right, and pulse/beat phase, in nano-cycles.
pub open spec fn spec_phases_after(e: AudioEngine, ps: Params, pe: Params, n: int) -> (
    int,
    int,
    int,
) {
    let rate = e.sample_rate as int;
    if e.program.settings.binaural {
        let lp = spec_phase_at(
            e.left_phase as int,
            ps.tone as int,
            pe.tone as int,
            0,
            0,
            n,
            rate,
            n as nat,
        );
        let rp = spec_phase_at(
            e.right_phase as int,
            ps.tone as int,
            pe.tone as int,
            ps.freq as int,
            pe.freq as int,
            n,
            rate,
            n as nat,
        );
        let beat = (e.pulse_phase + ((ps.freq + pe.freq) / 2) * n * 1000 / rate) % (NANO as int);
        (lp, rp, beat)
    } else {
        let tp = spec_phase_at(
            e.left_phase as int,
            ps.tone as int,
            pe.tone as int,
            0,
            0,
            n,
            rate,
            n as nat,
        );
        let pp = spec_phase_at(
            e.pulse_phase as int,
            ps.freq as int,
            pe.freq as int,
            0,
            0,
            n,
            rate,
            n as nat,
        );
        (tp, e.right_phase as int, pp)
    }
}

impl AudioEngine {
    /// Synthesize one buffer of binaural control frames: left channel at
    /// the carrier tone, right at carrier plus beat frequency, both at
    /// the interpolated volume; afterwards advance the published beat
    /// phase by the buffer's worth of the average beat frequency.
    #[verifier::loop_isolation(false)]
    fn process_binaural(&mut self, ps: &Params, pe: &Params, n: usize, out: &mut Vec<SampleCtl>)
        requires
            old(self).wf(),
            old(self).program.settings.binaural,
            ps.wf(),
            pe.wf(),
            1 <= n <= MAX_BUFFER,
        ensures
            final(out)@.len() == old(out)@.len() + n,
            forall|j: int|
                0 <= j < old(out)@.len() ==> final(out)@[j] == #[trigger] old(out)@[j],
            forall|i: int|
                0 <= i < n ==> final(out)@[old(out)@.len() + i] == spec_sample_at(
                    *old(self),
                    *ps,
                    *pe,
                    n as int,
                    i,
                ),
            *final(self) == (AudioEngine {
                left_phase: spec_phases_after(*old(self), *ps, *pe, n as int).0 as u64,
                right_phase: spec_phases_after(*old(self), *ps, *pe, n as int).1 as u64,
                pulse_phase: spec_phases_after(*old(self), *ps, *pe, n as int).2 as u64,
                ..*old(self)
            }),
            final(self).wf(),
    {
        let rate: u64 = self.sample_rate as u64;
        let mut lp: u64 = self.left_phase;
        let mut rp: u64 = self.right_phase;
        let ghost base = out@.len() as int;
        let mut i: usize = 0;
        while i < n
            invariant
                0 <= i <= n,
                lp == spec_phase_at(
                    old(self).left_phase as int,
                    ps.tone as int,
                    pe.tone as int,
                    0,
                    0,
                    n as int,
                    rate as int,
                    i as nat,
                ),
                rp == spec_phase_at(
                    old(self).right_phase as int,
                    ps.tone as int,
                    pe.tone as int,
                    ps.freq as int,
                    pe.freq as int,
                    n as int,
                    rate as int,
                    i as nat,
                ),
                lp < NANO,
                rp < NANO,
                out@.len() == base + i,
                forall|j: int| 0 <= j < base ==> out@[j] == #[trigger] old(out)@[j],
                forall|j: int|
                    0 <= j < i ==> out@[base + j] == spec_sample_at(
                        *old(self),
                        *ps,
                        *pe,
                        n as int,
                        j,
                    ),
                self == old(self),
            decreases n - i,
        {
            let iu: u64 = i as u64;
            let nu: u64 = n as u64;
            let tone_i = blend64(ps.tone, pe.tone, iu, nu);
            let freq_i = blend64(ps.freq, pe.freq, iu, nu);
            let vol_i = blend64(ps.vol, pe.vol, iu, nu);
            out.push(SampleCtl { left_phase: lp, right_phase: rp, left_gain: vol_i, right_gain: vol_i });
            proof {
                assert(spec_blend(0, 0, i as int, n as int) == 0) by (nonlinear_arith)
                    requires n >= 1;
            }
            let l_inc: u64 = tone_i * 1000 / rate;
            let r_inc: u64 = (tone_i + freq_i) * 1000 / rate;
            lp = (lp + l_inc) % NANO;
            rp = (rp + r_inc) % NANO;
            i = i + 1;
        }
        self.left_phase = lp;
        self.right_phase = rp;
        // advance the published beat phase by the buffer's average rate
        let avg: u64 = (ps.freq + pe.freq) / 2;
        proof {
            assert(avg * (n as u64) * 1000 <= 0x1000_0000_0000_0000_0000u128) by (nonlinear_arith)
                requires
                    avg <= 1_000_000_000_000u64,
                    n <= 16_777_216;
        }
        let delta: u128 = (avg as u128) * (n as u128) * 1000 / (rate as u128);
        let beat: u64 = (((self.pulse_phase as u128) + delta) % (NANO as u128)) as u64;
        self.pulse_phase = beat;
    }

    /// Synthesize one buffer of isochronic control frames: a single
    /// carrier phase on both channels, gated by the smooth pulse envelope
    /// at the interpolated duty cycle and volume.
    #[verifier::loop_isolation(false)]
    fn process_isochronic(&mut self, ps: &Params, pe: &Params, n: usize, out: &mut Vec<SampleCtl>)
        requires
            old(self).wf(),
            !old(self).program.settings.binaural,
            ps.wf(),
            pe.wf(),
            1 <= n <= MAX_BUFFER,
        ensures
            final(out)@.len() == old(out)@.len() + n,
            forall|j: int|
                0 <= j < old(out)@.len() ==> final(out)@[j] == #[trigger] old(out)@[j],
            forall|i: int|
                0 <= i < n ==> final(out)@[old(out)@.len() + i] == spec_sample_at(
                    *old(self),
                    *ps,
                    *pe,
                    n as int,
                    i,
                ),
            *final(self) == (AudioEngine {
                left_phase: spec_phases_after(*old(self), *ps, *pe, n as int).0 as u64,
                right_phase: spec_phases_after(*old(self), *ps, *pe, n as int).1 as u64,
                pulse_phase: spec_phases_after(*old(self), *ps, *pe, n as int).2 as u64,
                ..*old(self)
            }),
            final(self).wf(),
    {
        let rate: u64 = self.sample_rate as u64;
        let mut tp: u64 = self.left_phase;
        let mut pp: u64 = self.pulse_phase;
        let ghost base = out@.len() as int;
        let mut i: usize = 0;
        while i < n
            invariant
                0 <= i <= n,
                tp == spec_phase_at(
                    old(self).left_phase as int,
                    ps.tone as int,
                    pe.tone as int,
                    0,
                    0,
                    n as int,
                    rate as int,
                    i as nat,
                ),
                pp == spec_phase_at(
                    old(self).pulse_phase as int,
                    ps.freq as int,
                    pe.freq as int,
                    0,
                    0,
                    n as int,
                    rate as int,
                    i as nat,
                ),
                tp < NANO,
                pp < NANO,
                out@.len() == base + i,
                forall|j: int| 0 <= j < base ==> out@[j] == #[trigger] old(out)@[j],
                forall|j: int|
                    0 <= j < i ==> out@[base + j] == spec_sample_at(
                        *old(self),
                        *ps,
                        *pe,
                        n as int,
                        j,
                    ),
                self == old(self),
            decreases n - i,
        {
            let iu: u64 = i as u64;
            let nu: u64 = n as u64;
            let tone_i = blend64(ps.tone, pe.tone, iu, nu);
            let freq_i = blend64(ps.freq, pe.freq, iu, nu);
            let vol_i = blend64(ps.vol, pe.vol, iu, nu);
            let duty_i = blend64(ps.duty, pe.duty, iu, nu);
            let env = envelope(pp, duty_i);
            proof {
                assert(env * vol_i <= MICRO * MICRO) by (nonlinear_arith)
                    requires
                        env <= MICRO,
                        vol_i <= MICRO;
            }
            let gain: u64 = env * vol_i / MICRO;
            out.push(SampleCtl { left_phase: tp, right_phase: tp, left_gain: gain, right_gain: gain });
            proof {
                assert(spec_blend(0, 0, i as int, n as int) == 0) by (nonlinear_arith)
                    requires n >= 1;
            }
            let t_inc: u64 = tone_i * 1000 / rate;
            let p_inc: u64 = freq_i * 1000 / rate;
            tp = (tp + t_inc) % NANO;
            pp = (pp + p_inc) % NANO;
            i = i + 1;
        }
        self.left_phase = tp;
        self.pulse_phase = pp;
    }

    /// Process one audio buffer of `frame_count` frames: query the
    /// timeline at the buffer's boundary times, synthesize the buffer's
    /// control frames into `out` (replacing its contents), advance the
    /// frame counter and phase accumulators, and publish the new position
    /// and pulse phase to the sync snapshot. The first call records the
    /// buffer size for latency compensation. Every phase accumulator
    /// stays in `[0, NANO)` after every call.
    pub fn process(&mut self, frame_count: usize, out: &mut Vec<SampleCtl>)
        requires
            old(self).wf(),
            frame_count <= MAX_BUFFER,
            old(self).frame_count + frame_count <= u64::MAX,
        ensures
            final(self).wf(),
            frame_count == 0 ==> *final(self) == *old(self) && final(out)@ == old(out)@,
            frame_count > 0 ==> ({
                let e0 = *old(self);
                let n = frame_count as int;
                let rate = e0.sample_rate as int;
                let t0 = spec_time_us(e0.frame_count as int, rate);
                let t1 = spec_time_us(e0.frame_count + n, rate);
                let ps = e0.program.spec_params_at(t0);
                let pe = e0.program.spec_params_at(t1);
                &&& final(out)@.len() == n
                &&& forall|i: int|
                    0 <= i < n ==> final(out)@[i] == spec_sample_at(e0, ps, pe, n, i)
                &&& final(self).left_phase == spec_phases_after(e0, ps, pe, n).0
                &&& final(self).right_phase == spec_phases_after(e0, ps, pe, n).1
                &&& final(self).pulse_phase == spec_phases_after(e0, ps, pe, n).2
                &&& final(self).frame_count == e0.frame_count + n
                &&& final(self).sample_rate == e0.sample_rate
                &&& final(self).program.keyframes == e0.program.keyframes
                &&& final(self).program.settings == e0.program.settings
                &&& final(self).program.duration == e0.program.duration
                &&& final(self).sync == (SyncState {
                    frames_written: (e0.frame_count + n) as u64,
                    phase_nanos: final(self).pulse_phase,
                    buffer_frames: if e0.sync.buffer_frames == 0 {
                        frame_count as u32
                    } else {
                        e0.sync.buffer_frames
                    },
                    sample_rate: e0.sync.sample_rate,
                })
            }),
    {
        let n = frame_count;
        if n == 0 {
            return;
        }
        // record the device buffer size once, from the first callback
        if self.sync.buffer_frames == 0 {
            self.sync.buffer_frames = n as u32;
        }
        let ghost e0 = *old(self);
        // timeline parameters at the buffer's boundary times
        let t0 = time_us(self.frame_count, self.sample_rate);
        let t1 = time_us(self.frame_count + n as u64, self.sample_rate);
        let ps = self.program.params_at_cached(t0);
        let pe = self.program.params_at_cached(t1);
        proof {
            assert(self.program.spec_params_at(t1 as int) == e0.program.spec_params_at(t1 as int));
            assert(spec_sample_eq_all(*self, e0, ps, pe, n as int));
        }
        let ghost mid = *self;
        out.clear();
        if self.program.settings.binaural {
            self.process_binaural(&ps, &pe, n, out);
        } else {
            self.process_isochronic(&ps, &pe, n, out);
        }
        proof {
            assert(forall|i: int|
                0 <= i < n ==> spec_sample_at(mid, ps, pe, n as int, i) == spec_sample_at(
                    e0,
                    ps,
                    pe,
                    n as int,
                    i,
                ));
            assert(spec_phases_after(mid, ps, pe, n as int) == spec_phases_after(
                e0,
                ps,
                pe,
                n as int,
            ));
        }
        // advance the frame counter and publish the playback snapshot
        self.frame_count = self.frame_count + n as u64;
        self.sync.frames_written = self.frame_count;
        self.sync.phase_nanos = self.pulse_phase;
    }
}

/// Control frames depend only on the engine's phases, rate and mode, so
/// two engine values equal in those fields emit the same frames.
pub open spec fn spec_sample_eq_all(
    a: AudioEngine,
    b: AudioEngine,
    ps: Params,
    pe: Params,
    n: int,
) -> bool {
    forall|i: int| 0 <= i < n ==> spec_sample_at(a, ps, pe, n, i) == spec_sample_at(b, ps, pe, n, i)
}

/// Time in microseconds reached after `frames` frames at `rate` Hz.
pub fn time_us(frames: u64, rate: u32) -> (t: u64)
    requires
        rate >= 1,
    ensures
        t == spec_time_us(frames as int, rate as int),
{
    proof {
        assert(frames * MICRO <= 0xFFFF_FFFF_FFFF_FFFFu64 * 1_000_000) by (nonlinear_arith)
            requires
                frames <= 0xFFFF_FFFF_FFFF_FFFFu64,
                MICRO == 1_000_000u64;
    }
    let v: u128 = (frames as u128) * (MICRO as u128) / (rate as u128);
    if v > u64::MAX as u128 {
        u64::MAX
    } else {
        v as u64
    }
}

} // verus!
