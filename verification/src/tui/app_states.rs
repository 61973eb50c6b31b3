//! Radio state shared between the threads.
//!
//! The tuner and audio settings go from the UI to the radio; [`Health`] comes
//! back. What is purely visual is not here.

use vstd::prelude::*;

use crate::tui::tui_states::{Health, TunerMode, UNMEASURED};

verus! {

/// The settings the radio has an opinion about, and what it measures.
#[derive(Clone, Copy, Debug, PartialEq, Eq, Structural)]
pub struct AppStates {
    pub sample_rate: u32,
    pub audio_rate: u32,
    pub center_freq: u32,
    /// Always a value from the tuner's own table.
    pub gain_tenths: i32,
    pub agc: bool,
    /// Channel bandwidth. The tuner's IF filter is set wider than this.
    pub bandwidth: u32,
    /// Signed: most dongles need a negative correction.
    pub ppm: i32,
    /// 0 to 100, applied to the samples as they are played.
    pub volume: u32,
    pub muted: bool,
    /// De-emphasis time constant in microseconds.
    pub deemph_us: u32,
    /// The place of the demodulation mode in [`TunerMode::ALL`].
    pub mode: u8,
    pub health: Health,
}

impl AppStates {
    pub fn new(
        sample_rate: u32,
        audio_rate: u32,
        center_freq: u32,
        gain_tenths: i32,
        bandwidth: u32,
        ppm: i32,
    ) -> (s: Self)
        ensures
            s == (AppStates {
                sample_rate,
                audio_rate,
                center_freq,
                gain_tenths,
                agc: false,
                bandwidth,
                ppm,
                volume: 70,
                muted: false,
                deemph_us: 50,
                mode: 0,
                health: Health {
                    iq_drops: 0,
                    iq_laps: 0,
                    underruns: 0,
                    rssi_dbfs_x10: UNMEASURED,
                    snr_db_x10: UNMEASURED,
                },
            }),
    {
        Self {
            sample_rate,
            audio_rate,
            center_freq,
            gain_tenths,
            agc: false,
            bandwidth,
            ppm,
            volume: 70,
            muted: false,
            deemph_us: 50,
            mode: TunerMode::WbFm.to_u8(),
            health: Health::new(),
        }
    }

    pub fn mode(&self) -> (m: TunerMode)
        ensures
            m == TunerMode::at(self.mode as int),
    {
        TunerMode::from_u8(self.mode)
    }

    /// From now on [`mode`](Self::mode) answers `mode`.
    pub fn set_mode(&mut self, mode: TunerMode)
        ensures
            *final(self) == (AppStates { mode: mode.number() as u8, ..*old(self) }),
            TunerMode::at(final(self).mode as int) == mode,
    {
        self.mode = mode.to_u8();
    }
}

} // verus!
