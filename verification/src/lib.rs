//! A brainwave-entrainment session core: a keyframe timeline resolved from a
//! small textual program format, a sample-synthesis engine driven by that
//! timeline, a lock-free-friendly sync snapshot between the audio and visual
//! threads, and the closed-form pulse on-ratio used for anti-aliased flashes.
//!
//! All quantities are carried as decimal fixed-point integers so that every
//! computation is exact and verifiable: parameters, times and unit fractions
//! in micro-units (`MICRO` per unit), oscillator phases in nano-cycles
//! (`NANO` per cycle). The surrounding application converts to floating
//! point only at the audio-device and display edges.

pub mod color;
pub mod curve;
pub mod emit;
pub mod engine;
pub mod params;
pub mod program;
pub mod sync;
pub mod text;
pub mod units;
pub mod visuals;
