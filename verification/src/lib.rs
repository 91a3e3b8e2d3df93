//! Verified core of a real-time audio spectrum analyser.
//!
//! The pipeline turns blocks of stereo samples into a smoothed,
//! perceptually scaled, per-band magnitude representation.  All band
//! arithmetic is carried out in Q16 fixed point (`fixed::FP` units per
//! 1.0) so that every stage has an exact, machine-checked contract.

pub mod background;
pub mod band_smoothing;
pub mod bands;
pub mod buffer;
pub mod config;
pub mod exp2;
pub mod fixed;
pub mod magnitudes;
pub mod peak_smoothing;
pub mod process;
pub mod scaling;
pub mod synth;
pub mod visual;
