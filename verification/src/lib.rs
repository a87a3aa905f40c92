//! Sample-rate conversion of one monophonic channel by linear interpolation
//! between neighbouring source samples, with optional looping over a
//! sub-range of the source.
//!
//! All positions are exact rationals: a read position is counted in ticks of
//! `1 / output_sample_rate` of a source sample, so stepping by
//! `input_sample_rate` ticks advances it by exactly
//! `input_sample_rate / output_sample_rate` source samples, without drift.
//! Samples are signed integers on a linear scale, and an interpolated sample
//! is rounded down to the next whole amplitude.

pub mod laws;
pub mod mono_resampler_fast;
pub mod playback;
pub mod position;
pub mod sample;
pub mod ticks;

pub use crate::mono_resampler_fast::MonoResamplerFast;
pub use crate::sample::{Sample, SILENCE};
