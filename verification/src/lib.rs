//! A real-time spectral resynthesis engine.
//!
//! The engine analyzes an incoming audio stream's short-time spectrum,
//! extracts a small set of dominant sinusoidal partials, tracks those
//! partials coherently across analysis frames, and resynthesizes audio
//! from a bank of sine oscillators driven by the tracked partials.
//!
//! All signal values are carried as Q32.32 fixed-point numbers: an `i64`
//! holding `round(x * 2^32)` for the real value `x` (see [`fixed`]). The
//! forward FFT that feeds the peak analyzer is computed by the host shell;
//! the library consumes the resulting magnitude spectrum as plain
//! fixed-point values.

pub mod analyzer;
pub mod buffer;
pub mod fixed;
pub mod osc;
pub mod peak;
pub mod reconstructor;
pub mod rng;
pub mod smooth;
pub mod synth;
pub mod tracker;
pub mod trig;
pub mod utils;
pub mod voice;
pub mod window;
