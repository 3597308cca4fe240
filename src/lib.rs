//! Real-time pitch and chord detection pipeline: paced streaming of a sample
//! buffer, frame windowing, spectral band peaks, note and chord labelling,
//! timestamp-gated delivery of analysis results, and a bounded playback
//! buffer with a pause crossfade.
//!
//! Samples are signed fixed-point integers (`playback::FULL_SCALE` stands for
//! an amplitude of one) and all times are counted in samples; converting to
//! and from floating point happens outside the library.

pub mod analysis;
pub mod notes;
pub mod playback;
pub mod ring;
pub mod sequencer;
pub mod spectrum;
pub mod stream;
pub mod text;
pub mod visualizer;
pub mod window;
