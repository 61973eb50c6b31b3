//! The state the UI works on: the radio's settings and what is merely visual.

use vstd::prelude::*;

verus! {

/// Sentinel for a measurement nothing has written yet, so the Info panel can
/// render a dash instead of a confident zero.
pub const UNMEASURED: i32 = i32::MIN;

/// Which pane the arrow keys are talking to.
///
/// The signal view is not focusable: it has nothing to select.
#[derive(Clone, Copy, Debug, PartialEq, Eq, Structural)]
pub enum Pane {
    Control,
    Log,
}

impl Pane {
    /// The pane that `Tab` goes to.
    pub fn next(self) -> (p: Self)
        ensures
            p == self.spec_next(),
    {
        match self {
            Pane::Control => Pane::Log,
            Pane::Log => Pane::Control,
        }
    }

    pub open spec fn spec_next(self) -> Self {
        match self {
            Pane::Control => Pane::Log,
            Pane::Log => Pane::Control,
        }
    }
}

/// `Tab` cycles between the two panes.
pub proof fn tab_cycles(p: Pane)
    ensures
        p.spec_next() != p,
        p.spec_next().spec_next() == p,
{
}

/// Demodulation mode. Only wide-band FM is implemented; the rest render dimmed
/// and are selectable.
#[derive(Clone, Copy, Debug, PartialEq, Eq, Structural)]
pub enum TunerMode {
    /// Wide-band FM.
    WbFm,
    /// Narrow-band FM.
    Nfm,
    /// Amplitude modulation.
    Am,
    /// Upper sideband.
    Usb,
    /// Lower sideband.
    Lsb,
    /// No demodulation.
    Raw,
}

impl TunerMode {
    /// Every mode, in the order the Mode row steps through them.
    pub const ALL: [TunerMode; 6] = [
        TunerMode::WbFm,
        TunerMode::Nfm,
        TunerMode::Am,
        TunerMode::Usb,
        TunerMode::Lsb,
        TunerMode::Raw,
    ];

    /// The mode's place in [`ALL`](Self::ALL).
    pub open spec fn number(self) -> int {
        match self {
            TunerMode::WbFm => 0,
            TunerMode::Nfm => 1,
            TunerMode::Am => 2,
            TunerMode::Usb => 3,
            TunerMode::Lsb => 4,
            TunerMode::Raw => 5,
        }
    }

    /// The mode in place `i`, wide-band FM where there is none.
    pub open spec fn at(i: int) -> TunerMode {
        if i == 1 {
            TunerMode::Nfm
        } else if i == 2 {
            TunerMode::Am
        } else if i == 3 {
            TunerMode::Usb
        } else if i == 4 {
            TunerMode::Lsb
        } else if i == 5 {
            TunerMode::Raw
        } else {
            TunerMode::WbFm
        }
    }

    pub open spec fn spec_label(self) -> Seq<char> {
        match self {
            TunerMode::WbFm => "WFM"@,
            TunerMode::Nfm => "NFM"@,
            TunerMode::Am => "AM"@,
            TunerMode::Usb => "USB"@,
            TunerMode::Lsb => "LSB"@,
            TunerMode::Raw => "RAW"@,
        }
    }

    pub fn label(self) -> (s: &'static str)
        ensures
            s@ == self.spec_label(),
    {
        match self {
            TunerMode::WbFm => "WFM",
            TunerMode::Nfm => "NFM",
            TunerMode::Am => "AM",
            TunerMode::Usb => "USB",
            TunerMode::Lsb => "LSB",
            TunerMode::Raw => "RAW",
        }
    }

    /// Whether the DSP can actually run this mode today.
    pub fn implemented(self) -> (b: bool)
        ensures
            b == (self == TunerMode::WbFm),
    {
        matches!(self, TunerMode::WbFm)
    }

    /// The mode's place in [`ALL`](Self::ALL).
    pub fn to_u8(self) -> (v: u8)
        ensures
            v == self.number(),
    {
        match self {
            TunerMode::WbFm => 0,
            TunerMode::Nfm => 1,
            TunerMode::Am => 2,
            TunerMode::Usb => 3,
            TunerMode::Lsb => 4,
            TunerMode::Raw => 5,
        }
    }

    /// The mode in that place of [`ALL`](Self::ALL); wide-band FM for a number
    /// that has none.
    pub fn from_u8(v: u8) -> (m: Self)
        ensures
            m == Self::at(v as int),
    {
        if (v as usize) < Self::ALL.len() {
            Self::ALL[v as usize]
        } else {
            TunerMode::WbFm
        }
    }
}

/// A mode survives being stored as a number.
pub proof fn mode_round_trips(m: TunerMode)
    ensures
        TunerMode::at(m.number()) == m,
{
}

/// Written by the DSP and USB threads, read by the UI. Counters are the only way
/// the hot path is allowed to report anything.
#[derive(Clone, Copy, Debug, PartialEq, Eq, Structural)]
pub struct Health {
    /// Blocks the IQ ring producer could not place.
    pub iq_drops: u64,
    /// Times a consumer was lapped and had to jump forward.
    pub iq_laps: u64,
    /// Frames that found the audio ring empty and played silence.
    pub underruns: u64,
    /// Tenths of a dBFS, or [`UNMEASURED`].
    pub rssi_dbfs_x10: i32,
    /// Tenths of a dB, or [`UNMEASURED`].
    pub snr_db_x10: i32,
}

impl Health {
    /// Nothing counted, nothing measured.
    pub fn new() -> (h: Self)
        ensures
            h == (Health {
                iq_drops: 0,
                iq_laps: 0,
                underruns: 0,
                rssi_dbfs_x10: UNMEASURED,
                snr_db_x10: UNMEASURED,
            }),
    {
        Self {
            iq_drops: 0,
            iq_laps: 0,
            underruns: 0,
            rssi_dbfs_x10: UNMEASURED,
            snr_db_x10: UNMEASURED,
        }
    }
}

/// What the UI shows and edits.
#[derive(Clone, Copy, Debug, PartialEq, Eq, Structural)]
pub struct TuiStates {
    pub sample_rate: u32,
    pub audio_rate: u32,
    /// The centre of the sampled span.
    pub center_freq: u32,
    /// The channel actually demodulated, held at a fixed offset from the centre:
    /// moving the centre moves this by the same amount.
    pub tuned_freq: u32,
    pub step: u32,
    /// Always a value from the tuner's own table.
    pub gain_tenths: i32,
    pub agc: bool,
    /// Channel bandwidth.
    pub bandwidth: u32,
    pub ppm: i32,
    /// 0 to 100.
    pub volume: u32,
    pub muted: bool,
    /// De-emphasis time constant in microseconds: 50 outside the Americas and
    /// South Korea, 75 inside.
    pub deemph_us: u32,
    pub mode: TunerMode,
    pub health: Health,
    pub focus: Pane,
    /// Bottom of the colour range, in dB.
    pub floor_db: i32,
    /// Top of the colour range, in dB.
    pub ceil_db: i32,
    /// Lines the log panel is scrolled back from the newest. 0 follows the tail.
    pub log_scroll: usize,
}

impl TuiStates {
    pub fn new(
        sample_rate: u32,
        audio_rate: u32,
        center_freq: u32,
        tuned_freq: u32,
        step: u32,
        gain_tenths: i32,
        bandwidth: u32,
        ppm: i32,
        floor_db: i32,
        ceil_db: i32,
    ) -> (s: Self)
        ensures
            s.sample_rate == sample_rate,
            s.audio_rate == audio_rate,
            s.center_freq == center_freq,
            s.tuned_freq == tuned_freq,
            s.step == step,
            s.gain_tenths == gain_tenths,
            s.agc,
            s.bandwidth == bandwidth,
            s.ppm == ppm,
            s.volume == 1,
            !s.muted,
            s.deemph_us == 50,
            s.mode == TunerMode::WbFm,
            s.health.iq_drops == 0 && s.health.iq_laps == 0 && s.health.underruns == 0,
            s.health.rssi_dbfs_x10 == UNMEASURED && s.health.snr_db_x10 == UNMEASURED,
            s.focus == Pane::Control,
            s.floor_db == floor_db,
            s.ceil_db == ceil_db,
            s.log_scroll == 0,
    {
        Self {
            sample_rate,
            audio_rate,
            center_freq,
            tuned_freq,
            step,
            gain_tenths,
            agc: true,
            bandwidth,
            ppm,
            volume: 1,
            muted: false,
            deemph_us: 50,
            mode: TunerMode::WbFm,
            health: Health::new(),
            focus: Pane::Control,
            floor_db,
            ceil_db,
            log_scroll: 0,
        }
    }

    pub fn sample_rate(&self) -> (v: u32)
        ensures
            v == self.sample_rate,
    {
        self.sample_rate
    }

    pub fn audio_rate(&self) -> (v: u32)
        ensures
            v == self.audio_rate,
    {
        self.audio_rate
    }

    pub fn center_freq(&self) -> (v: u32)
        ensures
            v == self.center_freq,
    {
        self.center_freq
    }

    pub fn tuned_freq(&self) -> (v: u32)
        ensures
            v == self.tuned_freq,
    {
        self.tuned_freq
    }

    pub fn gain_tenths(&self) -> (v: i32)
        ensures
            v == self.gain_tenths,
    {
        self.gain_tenths
    }

    pub fn floor_db(&self) -> (v: i32)
        ensures
            v == self.floor_db,
    {
        self.floor_db
    }

    pub fn ceil_db(&self) -> (v: i32)
        ensures
            v == self.ceil_db,
    {
        self.ceil_db
    }

    pub fn set_mode(&mut self, mode: TunerMode)
        ensures
            *final(self) == (TuiStates { mode, ..*old(self) }),
    {
        self.mode = mode;
    }
}

} // verus!
