//! Ferrite: the core of a software radio for RTL-SDR dongles.
//!
//! Samples travel from one producer to many consumers through a ring
//! ([`spmc`]), through filters and a resampler to the speaker ([`dsp`],
//! [`flow`], [`speaker`]), and through a Fourier transform to the screen
//! ([`fft`], [`tui`]). [`source`] decides what the dongle is told.

pub mod buffer;
pub mod compact;
pub mod control_signal;
pub mod dsp;
pub mod exceptions;
pub mod fft;
pub mod flow;
pub mod log;
pub mod source;
pub mod speaker;
pub mod spmc;
pub mod text;
pub mod tui;
pub mod utils;
