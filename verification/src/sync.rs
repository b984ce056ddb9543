use vstd::prelude::*;

use crate::units::{MICRO, NANO, NUM_MAX};

verus! {

/// Snapshot of audio playback state, written by the synthesis engine once
/// per processed buffer and read by the visual path. The surrounding
/// application publishes the fields through one-writer atomics (release
/// on write, acquire on read); this type carries the values and the exact
/// latency arithmetic on them.
#[derive(Debug, Clone, Copy, PartialEq, Eq, Structural)]
pub struct SyncState {
    /// Total frames written to the audio device, monotonically increasing.
    pub frames_written: u64,
    /// Pulse phase after the last written buffer, in nano-cycles.
    pub phase_nanos: u64,
    /// Audio buffer size in frames, measured from the first callback.
    pub buffer_frames: u32,
    /// Audio sample rate in Hz; zero until the stream starts.
    pub sample_rate: u32,
}

impl SyncState {
    /// The idle snapshot: everything zero until the stream starts.
    pub fn new() -> (s: Self)
        ensures
            s == (SyncState { frames_written: 0u64, phase_nanos: 0u64, buffer_frames: 0u32, sample_rate: 0u32 }),
    {
        SyncState { frames_written: 0, phase_nanos: 0, buffer_frames: 0, sample_rate: 0 }
    }

    /// Playback time in microseconds: frames written less one buffer of
    /// latency, over the sample rate; zero while the stream has not
    /// started; saturating at the top of the scale.
    pub open spec fn spec_playback_micros(self) -> int {
        if self.sample_rate == 0 {
            0
        } else {
            let played = if self.frames_written >= self.buffer_frames {
                self.frames_written - self.buffer_frames
            } else {
                0
            };
            let v = played * MICRO / self.sample_rate as int;
            if v > u64::MAX {
                u64::MAX as int
            } else {
                v
            }
        }
    }

    /// The current playback time in microseconds, compensated for one
    /// buffer of device latency.
    pub fn playback_time_micros(&self) -> (r: u64)
        ensures
            r == self.spec_playback_micros(),
    {
        if self.sample_rate == 0 {
            return 0;
        }
        let buffer = self.buffer_frames as u64;
        let played: u64 = if self.frames_written >= buffer {
            self.frames_written - buffer
        } else {
            0
        };
        proof {
            assert(played * MICRO <= 0xFFFF_FFFF_FFFF_FFFFu64 * 1_000_000) by (nonlinear_arith)
                requires
                    played <= 0xFFFF_FFFF_FFFF_FFFFu64,
                    MICRO == 1_000_000u64;
        }
        let v: u128 = (played as u128) * (MICRO as u128) / (self.sample_rate as u128);
        if v > u64::MAX as u128 {
            u64::MAX
        } else {
            v as u64
        }
    }

    /// The published phase rewound by one buffer of latency at the given
    /// pulse frequency (micro-hertz), as a non-negative value in
    /// `[0, NANO)`; zero while the stream has not started.
    pub open spec fn spec_visual_phase(self, freq: int) -> int {
        if self.sample_rate == 0 {
            0
        } else {
            let offset = freq * self.buffer_frames * 1000 / self.sample_rate as int;
            (self.phase_nanos - offset) % (NANO as int)
        }
    }

    /// Pulse phase compensated for one buffer of device latency, for the
    /// frequency currently driving the pulse.
    pub fn visual_phase_nanos(&self, freq: u64) -> (r: u64)
        requires
            freq <= NUM_MAX,
        ensures
            r == self.spec_visual_phase(freq as int),
            r < NANO,
    {
        if self.sample_rate == 0 {
            return 0;
        }
        proof {
            assert(freq * self.buffer_frames * 1000 <= 0x1000_0000_0000_0000_0000_0000u128)
                by (nonlinear_arith)
                requires
                    freq <= 1_000_000_000_000u64,
                    self.buffer_frames <= 0xFFFF_FFFFu32;
        }
        let offset: u128 = (freq as u128) * (self.buffer_frames as u128) * 1000
            / (self.sample_rate as u128);
        let om: u64 = (offset % (NANO as u128)) as u64;
        let pm: u64 = self.phase_nanos % NANO;
        let r: u64 = (pm + NANO - om) % NANO;
        proof {
            let nn = NANO as int;
            let ph = self.phase_nanos as int;
            let off = freq * self.buffer_frames * 1000 / self.sample_rate as int;
            assert(offset == off);
            // (ph % n + n - off % n) == (ph - off) + multiples of n
            vstd::arithmetic::div_mod::lemma_fundamental_div_mod(ph, nn);
            vstd::arithmetic::div_mod::lemma_fundamental_div_mod(off, nn);
            let a = (ph % nn) + nn - (off % nn);
            assert(a == ph - off + nn * (1 + off / nn - ph / nn)) by (nonlinear_arith)
                requires
                    a == (ph % nn) + nn - (off % nn),
                    ph == nn * (ph / nn) + ph % nn,
                    off == nn * (off / nn) + off % nn;
            vstd::arithmetic::div_mod::lemma_mod_add_multiples_vanish(ph - off, nn);
            assert((ph - off + nn) % nn == (ph - off) % nn);
            vstd::arithmetic::div_mod::lemma_add_mod_noop(ph - off, nn * (off / nn - ph / nn), nn);
            vstd::arithmetic::div_mod::lemma_mod_multiples_basic(off / nn - ph / nn, nn);
            assert((nn * (off / nn - ph / nn)) % nn == 0);
            assert(a % nn == (ph - off) % nn) by {
                assert(a == (ph - off) + nn * (off / nn - ph / nn) + nn) by (nonlinear_arith)
                    requires
                        a == ph - off + nn * (1 + off / nn - ph / nn);
                vstd::arithmetic::div_mod::lemma_mod_add_multiples_vanish(
                    (ph - off) + nn * (off / nn - ph / nn),
                    nn,
                );
                vstd::arithmetic::div_mod::lemma_add_mod_noop(
                    ph - off,
                    nn * (off / nn - ph / nn),
                    nn,
                );
                assert(((ph - off) % nn + 0) % nn == (ph - off) % nn) by {
                    vstd::arithmetic::div_mod::lemma_mod_twice(ph - off, nn);
                };
            };
        }
        r
    }
}

impl Default for SyncState {
    fn default() -> (s: Self)
        ensures
            s == (SyncState { frames_written: 0u64, phase_nanos: 0u64, buffer_frames: 0u32, sample_rate: 0u32 }),
    {
        SyncState::new()
    }
}

} // verus!
