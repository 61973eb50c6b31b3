//! The settings of the compact radio.

use vstd::prelude::*;

pub use crate::tui::tui_states::TunerMode;

verus! {

/// The settings, and the mode.
#[derive(Clone, Copy, Debug, PartialEq, Eq, Structural)]
pub struct AppStates {
    pub sample_rate: u32,
    pub step: u32,
    pub center_freq: u32,
    pub gain_db: u32,
    pub bandwidth: u32,
    pub ppm: u32,
    pub tuner_mode: TunerMode,
}

impl AppStates {
    pub fn new(
        sample_rate: u32,
        step: u32,
        center_freq: u32,
        gain_db: u32,
        bandwidth: u32,
        ppm: u32,
    ) -> (s: Self)
        ensures
            s == (AppStates {
                sample_rate,
                step,
                center_freq,
                gain_db,
                bandwidth,
                ppm,
                tuner_mode: TunerMode::WbFm,
            }),
    {
        AppStates {
            sample_rate,
            step,
            center_freq,
            gain_db,
            bandwidth,
            ppm,
            tuner_mode: TunerMode::WbFm,
        }
    }

    pub fn tuner_mode(&self) -> (m: &TunerMode)
        ensures
            *m == self.tuner_mode,
    {
        &self.tuner_mode
    }

    /// The gain in whole dB that stands for what the tuner took, in tenths:
    /// rounded half up, and never negative.
    pub fn show_gain(&mut self, applied_tenths: i32)
        requires
            applied_tenths + 5 <= i32::MAX,
        ensures
            *final(self) == (AppStates { gain_db: shown_gain(applied_tenths as int), ..*old(self) }),
    {
        let rounded: i32 = applied_tenths + 5;
        self.gain_db = if rounded < 10 {
            0
        } else {
            (rounded / 10) as u32
        };
    }
}

/// Tenths of a dB as whole dB, rounded half up and never negative.
pub open spec fn shown_gain(tenths: int) -> u32 {
    if tenths < 5 {
        0
    } else {
        ((tenths + 5) / 10) as u32
    }
}

} // verus!
