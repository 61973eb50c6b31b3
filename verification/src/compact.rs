//! The compact radio: gain in whole dB, a correction that is never negative, the
//! LO on the station itself, and a single panel of five settings.

pub mod app_states;
pub mod calls;
pub mod control_signal;
pub mod detectors;
pub mod laws;
pub mod receive;
pub mod source;
pub mod stats_view;
pub mod stream;
pub mod tui;
