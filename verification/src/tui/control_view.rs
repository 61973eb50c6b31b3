//! The Control panel: everything you set.
//!
//! One flat, sectioned list. [`Field::ALL`] is both the on-screen order and the
//! order the cursor walks, so the display and the key handling cannot drift
//! apart.

use vstd::prelude::*;
use vstd::string::StringExecFns;

use crate::control_signal::CtrlSignal;
use crate::log::Level;
use crate::source::{clamp_tuned, within_span};
use crate::text::{
    always_signed, counted, decimal, lemma_brief, lemma_numbers_are_plain, measured_tenths, plain,
    push_always_signed, push_decimal, push_signed, push_tenths, signed_decimal, tenths,
};
use crate::tui::paint::{drawable, words_everything};
use crate::tui::tui_states::{TuiStates, TunerMode};
use crate::utils::{
    clamp, clamped, ints_of_i32, ints_of_u32, lemma_nearest_exists, nearest, nearest_i32,
    nearest_u32,
};

verus! {

/// Widest tuning range across the supported tuners.
pub const FREQ_RANGE: (u32, u32) = (24_000_000, 1_766_000_000);

/// Covers any crystal worth using. Signed, because a dongle needing a negative
/// correction is the common case.
pub const PPM_RANGE: (i32, i32) = (-100, 100);

/// Coarse enough to cross the FM band in a few presses, fine enough to land on a
/// narrow channel.
pub const STEP_LADDER: [u32; 6] = [1_000, 5_000, 10_000, 50_000, 100_000, 1_000_000];

/// Channel widths worth offering.
pub const BW_LADDER: [u32; 6] = [50_000, 100_000, 200_000, 300_000, 500_000, 1_000_000];

/// Keeps the colour range from collapsing to a single step.
pub const MIN_DB_SPAN: i32 = 10;

/// One adjustable row.
#[derive(Clone, Copy, Debug, PartialEq, Eq, Structural)]
pub enum Field {
    Mode,
    Freq,
    Tuned,
    Step,
    Gain,
    Agc,
    Bw,
    Ppm,
    Volume,
    Mute,
    Deemph,
    Floor,
    Ceil,
}

/// What a row shows.
#[derive(Clone, Copy, Debug, PartialEq, Eq, Structural)]
pub enum Reading {
    Mode(TunerMode),
    /// A frequency, always in MHz.
    Mhz(u32),
    /// A width in whichever unit keeps the number short.
    Hz(u32),
    /// Tenths of a dB.
    TenthsDb(i32),
    Switch(bool),
    /// With its sign.
    Ppm(i32),
    Plain(u32),
    Micros(u32),
    /// Whole dB.
    Db(i32),
}

impl Reading {
    /// The text of a reading, where it is one of whole numbers; frequencies from
    /// a kHz on have a fraction in another unit and are left to the caller.
    pub open spec fn spec_text(self) -> Option<Seq<char>> {
        match self {
            Reading::Mode(m) => Some(m.spec_label()),
            Reading::Mhz(_) => None,
            Reading::Hz(hz) => if hz < 1_000 {
                Some(decimal(hz as nat) + " Hz"@)
            } else {
                None
            },
            Reading::TenthsDb(t) => Some(tenths(t as int) + " dB"@),
            Reading::Switch(on) => Some(
                if on {
                    "on"@
                } else {
                    "off"@
                },
            ),
            Reading::Ppm(ppm) => Some(always_signed(ppm as int)),
            Reading::Plain(n) => Some(decimal(n as nat)),
            Reading::Micros(us) => Some(decimal(us as nat) + " \u{b5}s"@),
            Reading::Db(db) => Some(signed_decimal(db as int) + " dB"@),
        }
    }

    /// The text of a reading of whole numbers.
    pub fn text(self) -> (s: Option<String>)
        ensures
            s is Some <==> self.spec_text() is Some,
            s matches Some(t) ==> self.spec_text() == Some(t@),
    {
        match self {
            Reading::Mode(m) => Some(String::from_str(m.label())),
            Reading::Mhz(_) => None,
            Reading::Hz(hz) => {
                if hz < 1_000 {
                    Some(counted(hz as u64, " Hz"))
                } else {
                    None
                }
            },
            Reading::TenthsDb(t) => Some(measured_tenths(t, " dB")),
            Reading::Switch(on) => Some(String::from_str(on_off(on))),
            Reading::Ppm(ppm) => {
                let mut s = String::from_str("");
                proof {
                    reveal_strlit("");
                }
                push_always_signed(&mut s, ppm);
                assert(s@ =~= always_signed(ppm as int));
                Some(s)
            },
            Reading::Plain(n) => {
                let s = counted(n as u64, "");
                proof {
                    reveal_strlit("");
                }
                assert(s@ =~= decimal(n as nat));
                Some(s)
            },
            Reading::Micros(us) => Some(counted(us as u64, " \u{b5}s")),
            Reading::Db(db) => {
                let mut s = String::from_str("");
                proof {
                    reveal_strlit("");
                }
                push_signed(&mut s, db as i64);
                s.append(" dB");
                assert(s@ =~= signed_decimal(db as int) + " dB"@);
                Some(s)
            },
        }
    }
    /// The text is the reading in words: its own where it has one, and what the
    /// function makes of it otherwise.
    pub open spec fn reads<F: Fn(Reading) -> String>(self, other: F, s: String) -> bool {
        match self.spec_text() {
            Some(t) => s@ == t,
            None => call_ensures(other, (self,), s),
        }
    }

    /// The reading in words.
    pub fn words<F: Fn(Reading) -> String>(self, other: &F) -> (s: String)
        requires
            words_everything(*other),
        ensures
            self.reads(*other, s),
            drawable(s@),
    {
        proof {
            self.lemma_text_is_brief();
        }
        match self.text() {
            Some(s) => s,
            None => other(self),
        }
    }

    /// The text of a reading can be drawn: it is no more than a number and a unit.
    proof fn lemma_text_is_brief(self)
        ensures
            self.spec_text() matches Some(t) ==> t.len() <= 100 && plain(t),
    {
        match self {
            Reading::Mode(_) => {
                reveal_strlit("WFM");
                reveal_strlit("NFM");
                reveal_strlit("AM");
                reveal_strlit("USB");
                reveal_strlit("LSB");
                reveal_strlit("RAW");
            },
            Reading::Mhz(_) => {},
            Reading::Hz(hz) => {
                lemma_brief(hz as int);
                lemma_numbers_are_plain(hz as int);
                reveal_strlit(" Hz");
            },
            Reading::TenthsDb(t) => {
                lemma_brief(t as int);
                lemma_numbers_are_plain(t as int);
                reveal_strlit(" dB");
            },
            Reading::Switch(on) => {
                reveal_strlit("on");
                reveal_strlit("off");
            },
            Reading::Ppm(ppm) => {
                lemma_brief(ppm as int);
                lemma_numbers_are_plain(ppm as int);
            },
            Reading::Plain(n) => {
                lemma_brief(n as int);
                lemma_numbers_are_plain(n as int);
            },
            Reading::Micros(us) => {
                lemma_brief(us as int);
                lemma_numbers_are_plain(us as int);
                reveal_strlit(" \u{b5}s");
            },
            Reading::Db(db) => {
                lemma_brief(db as int);
                lemma_numbers_are_plain(db as int);
                reveal_strlit(" dB");
            },
        }
    }
}

/// The unit that keeps a frequency short.
#[derive(Clone, Copy, Debug, PartialEq, Eq, Structural)]
pub enum HzUnit {
    Mhz,
    Khz,
    Hz,
}

/// The unit that keeps a frequency short. Step and bandwidth span 1 kHz to a few
/// MHz, so a fixed unit makes one end of that range unreadable.
pub fn fmt_hz(hz: u32) -> (unit: HzUnit)
    ensures
        unit == (if hz >= 1_000_000 {
            HzUnit::Mhz
        } else if hz >= 1_000 {
            HzUnit::Khz
        } else {
            HzUnit::Hz
        }),
{
    if hz >= 1_000_000 {
        HzUnit::Mhz
    } else if hz >= 1_000 {
        HzUnit::Khz
    } else {
        HzUnit::Hz
    }
}

/// A switch in words.
pub fn on_off(b: bool) -> (s: &'static str)
    ensures
        s@ == (if b {
            "on"@
        } else {
            "off"@
        }),
{
    if b {
        "on"
    } else {
        "off"
    }
}

/// Shift and clamp. A downward step past zero saturates instead of wrapping into
/// the gigahertz.
pub fn offset(cur: u32, delta: i64, range: (u32, u32)) -> (r: u32)
    requires
        range.0 <= range.1,
        i64::MIN <= cur + delta <= i64::MAX,
    ensures
        r == clamped(cur + delta, range.0 as int, range.1 as int),
{
    clamp(cur as i64 + delta, range.0 as i64, range.1 as i64) as u32
}

/// The rung next to rung `i` of `n`, up for a positive direction and down
/// otherwise, stopping at the ends.
pub open spec fn neighbour(i: int, n: int, dir: int) -> int {
    if dir > 0 {
        if i + 1 < n {
            i + 1
        } else {
            n - 1
        }
    } else {
        if i > 0 {
            i - 1
        } else {
            0
        }
    }
}

/// The neighbouring rung of a ladder, starting from the one nearest `cur`.
pub open spec fn spec_rung(ladder: Seq<u32>, cur: u32, dir: int) -> u32 {
    ladder[neighbour(nearest(ints_of_u32(ladder), cur as int), ladder.len() as int, dir)]
}

/// Move to the neighbouring rung of a ladder.
///
/// Starts from the nearest rung, so a value that came from somewhere else still
/// steps sensibly. Saturates rather than wraps: arrowing off the end of a short
/// list and reappearing at the start reads as a glitch.
pub fn rung(ladder: &[u32], cur: u32, dir: i32) -> (r: u32)
    requires
        ladder@.len() > 0,
    ensures
        r == spec_rung(ladder@, cur, dir as int),
{
    let n: usize = ladder.len();
    let i: usize = nearest_u32(ladder, cur);
    let j: usize = if dir > 0 {
        if i + 1 < n {
            i + 1
        } else {
            n - 1
        }
    } else {
        i.saturating_sub(1)
    };
    ladder[j]
}

/// The neighbouring entry of a gain table, starting from the one nearest `cur`;
/// `cur` itself where there is no table.
pub open spec fn spec_gain_step(table: Seq<i32>, cur: i32, dir: int) -> i32 {
    if table.len() == 0 {
        cur
    } else {
        table[neighbour(nearest(ints_of_i32(table), cur as int), table.len() as int, dir)]
    }
}

/// A number held within what an `i32` can be.
pub open spec fn saturated(x: int) -> int {
    clamped(x, i32::MIN as int, i32::MAX as int)
}

/// A number held within what an `i32` can be.
fn saturate(x: i64) -> (r: i32)
    ensures
        r == saturated(x as int),
{
    clamp(x, i32::MIN as i64, i32::MAX as i64) as i32
}

/// The channel after the centre has moved by `delta`: the same distance from it.
/// Below zero it stops at zero; past the top of the range it wraps.
pub open spec fn carried(tuned: int, delta: int) -> int {
    if tuned + delta < 0 {
        0
    } else {
        (tuned + delta) % 0x1_0000_0000
    }
}

impl Field {
    /// Every row, in the order they are shown and walked.
    pub const ALL: [Field; 13] = [
        Field::Mode,
        Field::Freq,
        Field::Tuned,
        Field::Step,
        Field::Gain,
        Field::Agc,
        Field::Bw,
        Field::Ppm,
        Field::Volume,
        Field::Mute,
        Field::Deemph,
        Field::Floor,
        Field::Ceil,
    ];

    /// Labels and headers are short.
    pub proof fn lemma_names_are_brief(self)
        ensures
            self.spec_label().len() <= 10,
            self.spec_section() matches Some(name) ==> name.len() <= 10,
    {
        reveal_strlit("Mode");
        reveal_strlit("Freq");
        reveal_strlit("Tuned");
        reveal_strlit("Step");
        reveal_strlit("Gain");
        reveal_strlit("AGC");
        reveal_strlit("BW");
        reveal_strlit("PPM");
        reveal_strlit("Volume");
        reveal_strlit("Mute");
        reveal_strlit("De-emph");
        reveal_strlit("Floor");
        reveal_strlit("Ceiling");
        reveal_strlit("RADIO");
        reveal_strlit("AUDIO");
        reveal_strlit("DISPLAY");
    }

    pub open spec fn spec_section(self) -> Option<Seq<char>> {
        match self {
            Field::Mode => Some("RADIO"@),
            Field::Volume => Some("AUDIO"@),
            Field::Floor => Some("DISPLAY"@),
            _ => None,
        }
    }

    /// Header drawn above this field, when it opens a section.
    pub fn section(self) -> (s: Option<&'static str>)
        ensures
            s is Some <==> self.spec_section() is Some,
            s matches Some(name) ==> self.spec_section() == Some(name@),
    {
        match self {
            Field::Mode => Some("RADIO"),
            Field::Volume => Some("AUDIO"),
            Field::Floor => Some("DISPLAY"),
            _ => None,
        }
    }

    pub open spec fn spec_label(self) -> Seq<char> {
        match self {
            Field::Mode => "Mode"@,
            Field::Freq => "Freq"@,
            Field::Tuned => "Tuned"@,
            Field::Step => "Step"@,
            Field::Gain => "Gain"@,
            Field::Agc => "AGC"@,
            Field::Bw => "BW"@,
            Field::Ppm => "PPM"@,
            Field::Volume => "Volume"@,
            Field::Mute => "Mute"@,
            Field::Deemph => "De-emph"@,
            Field::Floor => "Floor"@,
            Field::Ceil => "Ceiling"@,
        }
    }

    pub fn label(self) -> (s: &'static str)
        ensures
            s@ == self.spec_label(),
    {
        match self {
            Field::Mode => "Mode",
            Field::Freq => "Freq",
            Field::Tuned => "Tuned",
            Field::Step => "Step",
            Field::Gain => "Gain",
            Field::Agc => "AGC",
            Field::Bw => "BW",
            Field::Ppm => "PPM",
            Field::Volume => "Volume",
            Field::Mute => "Mute",
            Field::Deemph => "De-emph",
            Field::Floor => "Floor",
            Field::Ceil => "Ceiling",
        }
    }

    pub open spec fn spec_value(self, states: TuiStates) -> Reading {
        match self {
            Field::Mode => Reading::Mode(states.mode),
            Field::Freq => Reading::Mhz(states.center_freq),
            Field::Tuned => Reading::Mhz(states.tuned_freq),
            Field::Step => Reading::Hz(states.step),
            Field::Gain => Reading::TenthsDb(states.gain_tenths),
            Field::Agc => Reading::Switch(states.agc),
            Field::Bw => Reading::Hz(states.bandwidth),
            Field::Ppm => Reading::Ppm(states.ppm),
            Field::Volume => Reading::Plain(states.volume),
            Field::Mute => Reading::Switch(states.muted),
            Field::Deemph => Reading::Micros(states.deemph_us),
            Field::Floor => Reading::Db(states.floor_db),
            Field::Ceil => Reading::Db(states.ceil_db),
        }
    }

    /// What the row shows.
    pub fn value(self, states: &TuiStates) -> (r: Reading)
        ensures
            r == self.spec_value(*states),
    {
        match self {
            Field::Mode => Reading::Mode(states.mode),
            Field::Freq => Reading::Mhz(states.center_freq),
            Field::Tuned => Reading::Mhz(states.tuned_freq),
            Field::Step => Reading::Hz(states.step),
            Field::Gain => Reading::TenthsDb(states.gain_tenths),
            Field::Agc => Reading::Switch(states.agc),
            Field::Bw => Reading::Hz(states.bandwidth),
            Field::Ppm => Reading::Ppm(states.ppm),
            Field::Volume => Reading::Plain(states.volume),
            Field::Mute => Reading::Switch(states.muted),
            Field::Deemph => Reading::Micros(states.deemph_us),
            Field::Floor => Reading::Db(states.floor_db),
            Field::Ceil => Reading::Db(states.ceil_db),
        }
    }

    pub open spec fn spec_inert(self, states: TuiStates) -> bool {
        match self {
            Field::Mode => states.mode != TunerMode::WbFm,
            Field::Gain => states.agc,
            Field::Volume => states.muted,
            _ => false,
        }
    }

    /// Whether the value is currently inert: set, but not doing anything.
    pub fn inert(self, states: &TuiStates) -> (b: bool)
        ensures
            b == self.spec_inert(*states),
    {
        match self {
            Field::Mode => !states.mode.implemented(),
            Field::Gain => states.agc,
            Field::Volume => states.muted,
            _ => false,
        }
    }

    /// The state and the signal that one press in direction `dir` leads to.
    pub open spec fn spec_adjust(
        self,
        s: TuiStates,
        gains: Seq<i32>,
        dir: int,
    ) -> (TuiStates, Option<CtrlSignal>) {
        match self {
            Field::Mode => {
                let n = (s.mode.number() + if dir > 0 {
                    1int
                } else {
                    5int
                }) % 6;
                (TuiStates { mode: TunerMode::at(n), ..s }, None)
            },
            Field::Freq => {
                let hz = clamped(
                    s.center_freq + s.step * dir,
                    FREQ_RANGE.0 as int,
                    FREQ_RANGE.1 as int,
                ) as u32;
                let tuned = carried(s.tuned_freq as int, hz - s.center_freq) as u32;
                (
                    TuiStates { center_freq: hz, tuned_freq: tuned, ..s },
                    Some(CtrlSignal::CenterHz(hz)),
                )
            },
            Field::Tuned => {
                let hz = within_span(
                    s.center_freq as int,
                    clamped(
                        s.tuned_freq + s.step * dir,
                        FREQ_RANGE.0 as int,
                        FREQ_RANGE.1 as int,
                    ),
                ) as u32;
                (TuiStates { tuned_freq: hz, ..s }, Some(CtrlSignal::TunedHz(hz)))
            },
            Field::Step => (
                TuiStates { step: spec_rung(STEP_LADDER@, s.step, dir), ..s },
                None,
            ),
            Field::Gain => {
                let tenths = spec_gain_step(gains, s.gain_tenths, dir);
                (
                    TuiStates { gain_tenths: tenths, agc: false, ..s },
                    Some(CtrlSignal::GainTenths(tenths)),
                )
            },
            Field::Agc => (
                TuiStates { agc: !s.agc, ..s },
                Some(
                    if s.agc {
                        CtrlSignal::GainTenths(s.gain_tenths)
                    } else {
                        CtrlSignal::AgcOn
                    },
                ),
            ),
            Field::Bw => {
                let bw = spec_rung(BW_LADDER@, s.bandwidth, dir);
                (TuiStates { bandwidth: bw, ..s }, Some(CtrlSignal::Bandwidth(bw)))
            },
            Field::Ppm => {
                let ppm = clamped(s.ppm + dir, PPM_RANGE.0 as int, PPM_RANGE.1 as int) as i32;
                (TuiStates { ppm, ..s }, Some(CtrlSignal::Ppm(ppm)))
            },
            Field::Volume => (
                TuiStates { volume: clamped(s.volume + 5 * dir, 0, 100) as u32, ..s },
                None,
            ),
            Field::Mute => (TuiStates { muted: !s.muted, ..s }, None),
            Field::Deemph => (
                TuiStates {
                    deemph_us: if s.deemph_us == 50 {
                        75u32
                    } else {
                        50u32
                    },
                    ..s
                },
                None,
            ),
            Field::Floor => {
                let floor = saturated(s.floor_db + 2 * dir);
                let least = saturated(floor + MIN_DB_SPAN);
                (
                    TuiStates {
                        floor_db: floor as i32,
                        ceil_db: if s.ceil_db < least {
                            least as i32
                        } else {
                            s.ceil_db
                        },
                        ..s
                    },
                    None,
                )
            },
            Field::Ceil => {
                let ceil = saturated(s.ceil_db + 2 * dir);
                let most = saturated(ceil - MIN_DB_SPAN);
                (
                    TuiStates {
                        ceil_db: ceil as i32,
                        floor_db: if s.floor_db > most {
                            most as i32
                        } else {
                            s.floor_db
                        },
                        ..s
                    },
                    None,
                )
            },
        }
    }

    /// Apply one press of an arrow; `dir` is -1 or +1.
    ///
    /// Writes straight into the state the display and the DSP read. Returns what
    /// the controller thread needs to hear, or `None` for anything the device is
    /// not involved in.
    pub fn adjust(
        self,
        states: &mut TuiStates,
        gain_table: &[i32],
        dir: i32,
    ) -> (sig: Option<CtrlSignal>)
        requires
            self is Ppm ==> i32::MIN <= old(states).ppm + dir <= i32::MAX,
        ensures
            (*final(states), sig) == self.spec_adjust(*old(states), gain_table@, dir as int),
    {
        match self {
            Field::Mode => {
                let i: usize = states.mode.to_u8() as usize;
                let n: usize = TunerMode::ALL.len();
                let next: usize = (i + if dir > 0 {
                    1
                } else {
                    n - 1
                }) % n;
                states.set_mode(TunerMode::from_u8(next as u8));
                None
            },
            Field::Freq => {
                let was: u32 = states.center_freq;
                let delta: i64 = shift(states.step, dir);
                let hz: u32 = offset(was, delta, FREQ_RANGE);
                states.center_freq = hz;
                states.tuned_freq = carry(states.tuned_freq, hz as i64 - was as i64);
                Some(CtrlSignal::CenterHz(hz))
            },
            Field::Tuned => {
                let delta: i64 = shift(states.step, dir);
                let want: u32 = offset(states.tuned_freq, delta, FREQ_RANGE);
                let hz: u32 = clamp_tuned(states.center_freq, want);
                states.tuned_freq = hz;
                Some(CtrlSignal::TunedHz(hz))
            },
            Field::Step => {
                states.step = rung(STEP_LADDER.as_slice(), states.step, dir);
                None
            },
            Field::Gain => {
                let tenths: i32 = gain_step(gain_table, states.gain_tenths, dir);
                states.gain_tenths = tenths;
                states.agc = false;
                Some(CtrlSignal::GainTenths(tenths))
            },
            Field::Agc => {
                let on = !states.agc;
                states.agc = on;
                Some(
                    if on {
                        CtrlSignal::AgcOn
                    } else {
                        CtrlSignal::GainTenths(states.gain_tenths)
                    },
                )
            },
            Field::Bw => {
                let bw: u32 = rung(BW_LADDER.as_slice(), states.bandwidth, dir);
                states.bandwidth = bw;
                Some(CtrlSignal::Bandwidth(bw))
            },
            Field::Ppm => {
                let ppm: i32 = clamp(
                    (states.ppm + dir) as i64,
                    PPM_RANGE.0 as i64,
                    PPM_RANGE.1 as i64,
                ) as i32;
                states.ppm = ppm;
                Some(CtrlSignal::Ppm(ppm))
            },
            Field::Volume => {
                states.volume = clamp(states.volume as i64 + 5 * dir as i64, 0, 100) as u32;
                None
            },
            Field::Mute => {
                states.muted = !states.muted;
                None
            },
            Field::Deemph => {
                states.deemph_us = if states.deemph_us == 50 {
                    75
                } else {
                    50
                };
                None
            },
            Field::Floor => {
                let floor: i32 = saturate(states.floor_db as i64 + 2 * dir as i64);
                states.floor_db = floor;
                let least: i32 = saturate(floor as i64 + MIN_DB_SPAN as i64);
                if states.ceil_db < least {
                    states.ceil_db = least;
                }
                None
            },
            Field::Ceil => {
                let ceil: i32 = saturate(states.ceil_db as i64 + 2 * dir as i64);
                states.ceil_db = ceil;
                let most: i32 = saturate(ceil as i64 - MIN_DB_SPAN as i64);
                if states.floor_db > most {
                    states.floor_db = most;
                }
                None
            },
        }
    }
}

/// How far one press moves a frequency.
fn shift(step: u32, dir: i32) -> (d: i64)
    ensures
        d == step * dir,
        -0x7fff_ffff_8000_0000 <= d <= 0x7fff_fffe_8000_0001,
{
    proof {
        assert(-0x8000_0000 * 0xffff_ffff <= step * dir <= 0x7fff_ffff * 0xffff_ffff)
            by (nonlinear_arith)
            requires
                0 <= step <= 0xffff_ffff,
                -0x8000_0000 <= dir <= 0x7fff_ffff,
        ;
    }
    step as i64 * dir as i64
}

/// Move the channel along with the centre.
fn carry(tuned: u32, delta: i64) -> (r: u32)
    requires
        -0x1_0000_0000 <= delta <= 0x1_0000_0000,
    ensures
        r == carried(tuned as int, delta as int),
{
    let moved: i64 = tuned as i64 + delta;
    if moved < 0 {
        return 0;
    }
    let moved: u64 = moved as u64;
    assert(moved as u32 == moved % 0x1_0000_0000) by (bit_vector);
    #[verifier::truncate]
    (moved as u32)
}

/// Neighbouring rung of the tuner's gain table, starting from whichever entry is
/// nearest the current value. The table is discrete and clustered, so stepping
/// whole dB would do nothing on most presses.
pub fn gain_step(table: &[i32], cur: i32, dir: i32) -> (g: i32)
    ensures
        g == spec_gain_step(table@, cur, dir as int),
{
    if table.len() == 0 {
        return cur;
    }
    let i: usize = nearest_i32(table, cur);
    let j: usize = if dir > 0 {
        if i + 1 < table.len() {
            i + 1
        } else {
            table.len() - 1
        }
    } else {
        i.saturating_sub(1)
    };
    table[j]
}

/// What a line in the log about a setting is about.
#[derive(Clone, Copy, Debug, PartialEq, Eq, Structural)]
pub enum Topic {
    Mode(TunerMode),
    /// Tenths of a dB.
    Gain(i32),
    Agc(bool),
    /// The gain is set by hand from now on.
    Manual,
    /// Hz.
    Bandwidth(u32),
    /// Microseconds.
    Deemph(u32),
}

impl Topic {
    /// The line, given the width of the channel in words.
    pub open spec fn spec_text(self, width: Seq<char>) -> Seq<char> {
        match self {
            Topic::Mode(m) => "mode "@ + m.spec_label() + if m == TunerMode::WbFm {
                ""@
            } else {
                " selected but not implemented"@
            },
            Topic::Gain(t) => "gain "@ + tenths(t as int) + " dB"@,
            Topic::Agc(on) => if on {
                "AGC on"@
            } else {
                "AGC off"@
            },
            Topic::Manual => "AGC off (manual gain)"@,
            Topic::Bandwidth(_) => "channel bandwidth "@ + width,
            Topic::Deemph(us) => "de-emphasis "@ + decimal(us as nat) + " \u{b5}s"@,
        }
    }

    /// The text is that line: a width is a reading in words.
    pub open spec fn says<F: Fn(Reading) -> String>(self, other: F, s: Seq<char>) -> bool {
        match self {
            Topic::Bandwidth(hz) => exists|width: String| #[trigger]
                Reading::Hz(hz).reads(other, width) && s == self.spec_text(width@),
            _ => s == self.spec_text(Seq::empty()),
        }
    }

    /// The line. A width without a text of its own is put into words by the
    /// function.
    pub fn text<F: Fn(Reading) -> String>(self, other: &F) -> (s: String)
        requires
            words_everything(*other),
        ensures
            self.says(*other, s@),
    {
        match self {
            Topic::Mode(m) => {
                let mut s = String::from_str("mode ");
                s.append(m.label());
                s.append(
                    if m.implemented() {
                        ""
                    } else {
                        " selected but not implemented"
                    },
                );
                s
            },
            Topic::Gain(t) => {
                let mut s = String::from_str("gain ");
                push_tenths(&mut s, t);
                s.append(" dB");
                s
            },
            Topic::Agc(on) => String::from_str(
                if on {
                    "AGC on"
                } else {
                    "AGC off"
                },
            ),
            Topic::Manual => String::from_str("AGC off (manual gain)"),
            Topic::Bandwidth(hz) => {
                let width = Reading::Hz(hz).words(other);
                let mut s = String::from_str("channel bandwidth ");
                s.append(width.as_str());
                assert(Reading::Hz(hz).reads(*other, width) && s@ == self.spec_text(width@));
                s
            },
            Topic::Deemph(us) => {
                let mut s = String::from_str("de-emphasis ");
                push_decimal(&mut s, us as u64);
                s.append(" \u{b5}s");
                s
            },
        }
    }
}

impl Field {
    pub open spec fn spec_notice(self, states: TuiStates) -> Option<(Level, Topic)> {
        match self {
            Field::Mode => Some(
                (
                    if states.mode == TunerMode::WbFm {
                        Level::Info
                    } else {
                        Level::Warn
                    },
                    Topic::Mode(states.mode),
                ),
            ),
            Field::Gain => Some((Level::Info, Topic::Gain(states.gain_tenths))),
            Field::Agc => Some((Level::Info, Topic::Agc(states.agc))),
            Field::Bw => Some((Level::Info, Topic::Bandwidth(states.bandwidth))),
            Field::Deemph => Some((Level::Info, Topic::Deemph(states.deemph_us))),
            _ => None,
        }
    }

    /// The line that goes into the log after this field was adjusted: a warning
    /// when a mode was selected that is not implemented.
    pub fn notice(self, states: &TuiStates) -> (n: Option<(Level, Topic)>)
        ensures
            n == self.spec_notice(*states),
    {
        match self {
            Field::Mode => Some(
                (
                    if states.mode.implemented() {
                        Level::Info
                    } else {
                        Level::Warn
                    },
                    Topic::Mode(states.mode),
                ),
            ),
            Field::Gain => Some((Level::Info, Topic::Gain(states.gain_tenths))),
            Field::Agc => Some((Level::Info, Topic::Agc(states.agc))),
            Field::Bw => Some((Level::Info, Topic::Bandwidth(states.bandwidth))),
            Field::Deemph => Some((Level::Info, Topic::Deemph(states.deemph_us))),
            _ => None,
        }
    }

    /// The lines that go into the log after this field was adjusted. Reaching for
    /// the gain also takes it out of the AGC's hands, which is said where it was
    /// in them.
    pub open spec fn spec_notices(
        self,
        before: TuiStates,
        after: TuiStates,
    ) -> Seq<(Level, Topic)> {
        let first = match self.spec_notice(after) {
            Some(n) => seq![n],
            None => Seq::empty(),
        };
        if self == Field::Gain && before.agc && !after.agc {
            first.push((Level::Info, Topic::Manual))
        } else {
            first
        }
    }

    /// The lines that go into the log after this field was adjusted, given the
    /// settings before and after.
    pub fn notices(self, before: &TuiStates, after: &TuiStates) -> (lines: Vec<(Level, Topic)>)
        ensures
            lines@ == self.spec_notices(*before, *after),
    {
        let mut lines: Vec<(Level, Topic)> = Vec::new();
        if let Some(n) = self.notice(after) {
            lines.push(n);
        }
        if self == Field::Gain && before.agc && !after.agc {
            lines.push((Level::Info, Topic::Manual));
        }
        assert(lines@ =~= self.spec_notices(*before, *after));
        lines
    }
}

/// The panel: the tuner's gain table, and the cursor into [`Field::ALL`].
pub struct ControlView {
    /// Tenths of a dB, ascending. Empty if the device reported none, in which
    /// case Gain does nothing.
    gain_table: Vec<i32>,
    selected: usize,
}

/// The state of a [`ControlView`].
pub struct ControlViewState {
    pub gain_table: Seq<i32>,
    pub selected: int,
}

impl View for ControlView {
    type V = ControlViewState;

    closed spec fn view(&self) -> ControlViewState {
        ControlViewState { gain_table: self.gain_table@, selected: self.selected as int }
    }
}

impl ControlViewState {
    /// The cursor is on a row.
    pub open spec fn wf(self) -> bool {
        0 <= self.selected < Field::ALL@.len()
    }

    /// The row under the cursor.
    pub open spec fn field(self) -> Field {
        Field::ALL@[self.selected]
    }

    /// The cursor after a move: one down for a positive direction, one up
    /// otherwise, around the ends.
    pub open spec fn select(self, dir: int) -> Self {
        ControlViewState {
            selected: (self.selected + if dir > 0 {
                1int
            } else {
                Field::ALL@.len() - 1
            }) % (Field::ALL@.len() as int),
            ..self
        }
    }
}

impl ControlView {
    /// A panel with the cursor on the first row.
    pub fn new(gain_table: Vec<i32>) -> (v: Self)
        ensures
            v@.wf(),
            v@.gain_table == gain_table@,
            v@.selected == 0,
    {
        Self { gain_table, selected: 0 }
    }

    /// Move the cursor. Wraps, unlike the value ladders.
    pub fn select(&mut self, dir: i32)
        requires
            old(self)@.wf(),
        ensures
            final(self)@.wf(),
            final(self)@ == old(self)@.select(dir as int),
    {
        let n: usize = Field::ALL.len();
        let delta: usize = if dir > 0 {
            1
        } else {
            n - 1
        };
        self.selected = (self.selected + delta) % n;
    }

    /// Where the cursor is.
    pub fn cursor(&self) -> (i: usize)
        ensures
            i == self@.selected,
    {
        self.selected
    }

    /// The row under the cursor.
    pub fn field(&self) -> (f: Field)
        requires
            self@.wf(),
        ensures
            f == self@.field(),
    {
        Field::ALL[self.selected]
    }

    /// Adjust the row under the cursor.
    pub fn adjust(&self, states: &mut TuiStates, dir: i32) -> (sig: Option<CtrlSignal>)
        requires
            self@.wf(),
            self@.field() is Ppm ==> i32::MIN <= old(states).ppm + dir <= i32::MAX,
        ensures
            (*final(states), sig) == self@.field().spec_adjust(
                *old(states),
                self@.gain_table,
                dir as int,
            ),
    {
        self.field().adjust(states, self.gain_table.as_slice(), dir)
    }

    /// The focused row's label and value, for the status bar.
    pub fn focused(&self, states: &TuiStates) -> (r: (&'static str, Reading))
        requires
            self@.wf(),
        ensures
            r.0@ == self@.field().spec_label(),
            r.1 == self@.field().spec_value(*states),
    {
        let f = self.field();
        (f.label(), f.value(states))
    }
}

/// The cursor after `k` moves in one direction.
pub open spec fn select_times(v: ControlViewState, dir: int, k: nat) -> ControlViewState
    decreases k,
{
    if k == 0 {
        v
    } else {
        select_times(v, dir, (k - 1) as nat).select(dir)
    }
}

/// Moving one way and then the other comes back.
pub proof fn select_undoes_select(v: ControlViewState)
    requires
        v.wf(),
    ensures
        v.select(1).select(-1) == v,
        v.select(-1).select(1) == v,
{
}

/// Where the cursor is after `k` moves down.
proof fn lemma_select_times(v: ControlViewState, k: nat)
    requires
        v.wf(),
        k <= 13,
    ensures
        select_times(v, 1, k) == (ControlViewState { selected: (v.selected + k) % 13, ..v }),
    decreases k,
{
    if k > 0 {
        lemma_select_times(v, (k - 1) as nat);
    }
}

/// The cursor visits every row exactly once per cycle, and comes back round.
pub proof fn cursor_visits_every_row_once(v: ControlViewState, f: Field)
    requires
        v.wf(),
    ensures
        select_times(v, 1, Field::ALL@.len()) == v,
        exists|k: nat|
            k < Field::ALL@.len() && #[trigger] select_times(v, 1, k).field() == f,
        forall|j: nat, k: nat|
            j < k < Field::ALL@.len() ==> #[trigger] select_times(v, 1, j).field()
                != #[trigger] select_times(v, 1, k).field(),
{
    lemma_select_times(v, 13);
    let i = place(f);
    assert(Field::ALL@[i] == f);
    let k = ((i + 13 - v.selected) % 13) as nat;
    lemma_select_times(v, k);
    assert(select_times(v, 1, k).field() == f);
    assert forall|j: nat, k: nat|
        j < k < Field::ALL@.len() implies #[trigger] select_times(v, 1, j).field()
        != #[trigger] select_times(v, 1, k).field() by {
        lemma_select_times(v, j);
        lemma_select_times(v, k);
        lemma_rows_are_distinct(select_times(v, 1, j).selected, select_times(v, 1, k).selected);
    }
}

/// The place of a row in [`Field::ALL`].
pub open spec fn place(f: Field) -> int {
    match f {
        Field::Mode => 0,
        Field::Freq => 1,
        Field::Tuned => 2,
        Field::Step => 3,
        Field::Gain => 4,
        Field::Agc => 5,
        Field::Bw => 6,
        Field::Ppm => 7,
        Field::Volume => 8,
        Field::Mute => 9,
        Field::Deemph => 10,
        Field::Floor => 11,
        Field::Ceil => 12,
    }
}

/// No row is listed twice.
proof fn lemma_rows_are_distinct(i: int, j: int)
    requires
        0 <= i < 13,
        0 <= j < 13,
        i != j,
    ensures
        Field::ALL@[i] != Field::ALL@[j],
{
    assert(place(Field::ALL@[i]) == i);
    assert(place(Field::ALL@[j]) == j);
}

/// Moving the centre carries the channel with it: the distance between the two
/// does not change. It does only where the channel would leave the range of a
/// frequency.
pub proof fn centre_carries_the_channel(s: TuiStates, gains: Seq<i32>, dir: int)
    requires
        0 <= s.tuned_freq + (Field::Freq.spec_adjust(s, gains, dir).0.center_freq
            - s.center_freq) <= u32::MAX,
    ensures
        ({
            let t = Field::Freq.spec_adjust(s, gains, dir).0;
            t.tuned_freq - t.center_freq == s.tuned_freq - s.center_freq
        }),
{
}

/// Moving the channel never retunes, and never leaves the tunable span.
pub proof fn channel_moves_alone(s: TuiStates, gains: Seq<i32>, dir: int)
    ensures
        ({
            let t = Field::Tuned.spec_adjust(s, gains, dir).0;
            &&& t.center_freq == s.center_freq
            &&& t.tuned_freq == within_span(s.center_freq as int, t.tuned_freq as int)
        }),
{
}

/// The colour range cannot collapse: whichever end is moved, the other is pushed
/// along, so that the least span is kept.
pub proof fn display_range_cannot_collapse(s: TuiStates, gains: Seq<i32>, dir: int)
    requires
        i32::MIN + MIN_DB_SPAN <= s.floor_db + 2 * dir <= i32::MAX - MIN_DB_SPAN,
        i32::MIN + MIN_DB_SPAN <= s.ceil_db + 2 * dir <= i32::MAX - MIN_DB_SPAN,
    ensures
        ({
            let t = Field::Floor.spec_adjust(s, gains, dir).0;
            t.floor_db == s.floor_db + 2 * dir && t.ceil_db - t.floor_db >= MIN_DB_SPAN
        }),
        ({
            let t = Field::Ceil.spec_adjust(s, gains, dir).0;
            t.ceil_db == s.ceil_db + 2 * dir && t.ceil_db - t.floor_db >= MIN_DB_SPAN
        }),
{
}

/// Reaching for the gain turns AGC off, and one signal carries both: manual
/// mode, at the gain shown.
pub proof fn gain_turns_agc_off(s: TuiStates, gains: Seq<i32>, dir: int)
    ensures
        ({
            let (t, sig) = Field::Gain.spec_adjust(s, gains, dir);
            !t.agc && sig == Some(CtrlSignal::GainTenths(t.gain_tenths))
        }),
{
}

/// Leaving AGC re-applies the gain the panel shows.
pub proof fn leaving_agc_restores_the_gain(s: TuiStates, gains: Seq<i32>, dir: int)
    requires
        s.agc,
    ensures
        Field::Agc.spec_adjust(s, gains, dir) == (
            TuiStates { agc: false, ..s },
            Some(CtrlSignal::GainTenths(s.gain_tenths)),
        ),
{
}

/// Every setting stays in its range: frequencies the tuners cover, corrections
/// and volume within their limits, steps and widths on their ladders, gains in
/// the tuner's table.
pub proof fn settings_stay_in_range(s: TuiStates, gains: Seq<i32>, dir: int)
    requires
        gains.len() > 0,
    ensures
        FREQ_RANGE.0 <= Field::Freq.spec_adjust(s, gains, dir).0.center_freq <= FREQ_RANGE.1,
        PPM_RANGE.0 <= Field::Ppm.spec_adjust(s, gains, dir).0.ppm <= PPM_RANGE.1,
        0 <= Field::Volume.spec_adjust(s, gains, dir).0.volume <= 100,
        STEP_LADDER@.contains(Field::Step.spec_adjust(s, gains, dir).0.step),
        BW_LADDER@.contains(Field::Bw.spec_adjust(s, gains, dir).0.bandwidth),
        gains.contains(Field::Gain.spec_adjust(s, gains, dir).0.gain_tenths),
{
    lemma_nearest_exists(ints_of_u32(STEP_LADDER@), s.step as int);
    lemma_nearest_exists(ints_of_u32(BW_LADDER@), s.bandwidth as int);
    lemma_nearest_exists(ints_of_i32(gains), s.gain_tenths as int);
}

/// Each control touches only what it is for: the health counters, the focus and
/// the log are nobody's to adjust, and the rates are the device's.
pub proof fn adjusting_leaves_the_rest_alone(f: Field, s: TuiStates, gains: Seq<i32>, dir: int)
    ensures
        ({
            let t = f.spec_adjust(s, gains, dir).0;
            &&& t.sample_rate == s.sample_rate
            &&& t.audio_rate == s.audio_rate
            &&& t.health == s.health
            &&& t.focus == s.focus
            &&& t.log_scroll == s.log_scroll
        }),
{
}

/// The Mode row goes round: one press undoes the opposite one.
pub proof fn mode_goes_round(s: TuiStates, gains: Seq<i32>)
    ensures
        Field::Mode.spec_adjust(Field::Mode.spec_adjust(s, gains, 1).0, gains, -1).0 == s,
        Field::Mode.spec_adjust(Field::Mode.spec_adjust(s, gains, -1).0, gains, 1).0 == s,
{
}

/// Two presses of a switch change nothing.
pub proof fn switches_toggle(s: TuiStates, gains: Seq<i32>, dir: int)
    requires
        s.deemph_us == 50 || s.deemph_us == 75,
    ensures
        Field::Mute.spec_adjust(Field::Mute.spec_adjust(s, gains, dir).0, gains, dir).0 == s,
        Field::Agc.spec_adjust(Field::Agc.spec_adjust(s, gains, dir).0, gains, dir).0 == s,
        Field::Deemph.spec_adjust(Field::Deemph.spec_adjust(s, gains, dir).0, gains, dir).0 == s,
{
}

} // verus!
