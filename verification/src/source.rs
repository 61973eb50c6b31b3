//! The tuner: what it is asked for, and what it is told in answer to a signal.

pub mod calls;
pub mod laws;

use vstd::prelude::*;

use crate::control_signal::CtrlSignal;
use crate::exceptions::CustomError;
use crate::utils::{
    clamp, clamped, distance, ints_of_i32, lemma_nearest_exists, nearest, nearest_i32,
};

verus! {

/// RTL sample rate over audio sample rate. 50 keeps both 48k and 44.1k in the
/// RTL's valid range, 2.4 MS/s and 2.205 MS/s.
pub const AUDIO_DECIM: u32 = 50;

/// Audio samples per ring block.
pub const CPAL_BLOCK: usize = 164;

/// Slots of either ring.
pub const IQ_SLOTS: usize = 16;

/// Interleaved IQ values per ring block, and bytes per USB transfer.
pub const IQ_BLOCK: usize = 16384;

/// Offset tuning: how far below the wanted station the LO is parked.
///
/// The dongle's LO leakage puts a large spike at 0 Hz, which is exactly on the
/// carrier when tuned on-channel. Parking the LO low puts the station at this
/// offset and leaves the spike at DC, where the decimation filters bury it once
/// the station has been shifted down.
pub const OFFSET_TUNING_HZ: u32 = 350_000;

/// How far from the centre of the span a channel may be tuned.
pub const TUNE_SPAN_HZ: u32 = 1_000_000;

/// The LO for a station at `freq`.
pub open spec fn lo_of(freq: u32) -> u32 {
    if freq < OFFSET_TUNING_HZ {
        0
    } else {
        (freq - OFFSET_TUNING_HZ) as u32
    }
}

/// The tuner's IF filter width for a channel, in whole numbers.
pub open spec fn filter_width(channel_hz: int) -> int {
    2 * (OFFSET_TUNING_HZ + channel_hz / 2)
}

/// The tuner's IF filter width for a given channel width.
///
/// The filter is centred on the LO, which offset tuning parks below the station,
/// so it has to reach past the offset to the far edge of the channel rather than
/// merely span the channel.
pub fn tuner_bandwidth(channel_hz: u32) -> (bw: u32)
    requires
        filter_width(channel_hz as int) <= u32::MAX,
    ensures
        bw == filter_width(channel_hz as int),
{
    2 * (OFFSET_TUNING_HZ + channel_hz / 2)
}

/// The filter reaches past the far edge of the channel, which lies half a
/// channel beyond the offset. An odd channel width is rounded down to an even
/// one.
pub proof fn filter_clears_the_channel(channel_hz: int)
    requires
        channel_hz >= 0,
    ensures
        filter_width(channel_hz) / 2 >= OFFSET_TUNING_HZ + channel_hz / 2,
        filter_width(channel_hz) >= channel_hz,
{
}

/// The gain of the table nearest to `want`, the first of two equally near; the
/// request itself where the tuner reports no table.
pub open spec fn snapped(gains: Seq<i32>, want: i32) -> i32 {
    if gains.len() == 0 {
        want
    } else {
        gains[nearest(ints_of_i32(gains), want as int)]
    }
}

/// Snap a request in tenths of a dB to the nearest gain the tuner supports.
///
/// The supported set is discrete and tuner-specific. The driver does not reject
/// an unsupported value but quietly applies something else, so snapping here is
/// what makes the number the UI shows the number the hardware is using.
pub fn snap_gain_tenths(gains: &[i32], want: i32) -> (g: i32)
    ensures
        g == snapped(gains@, want),
{
    if gains.len() == 0 {
        return want;
    }
    let i: usize = nearest_i32(gains, want);
    gains[i]
}

/// Snap a request in whole dB.
pub fn snap_gain(gains: &[i32], db: u32) -> (g: i32)
    requires
        db * 10 <= i32::MAX,
    ensures
        g == snapped(gains@, (db * 10) as i32),
{
    snap_gain_tenths(gains, db as i32 * 10)
}

/// A channel held within the tunable span around `center`.
pub open spec fn within_span(center: int, hz: int) -> int {
    clamped(
        hz,
        clamped(center - TUNE_SPAN_HZ, 0, u32::MAX as int),
        clamped(center + TUNE_SPAN_HZ, 0, u32::MAX as int),
    )
}

/// Hold a channel within the tunable span around the centre. The panel and the
/// controller both go through here, so that neither can land where the other
/// does not.
pub fn clamp_tuned(center: u32, hz: u32) -> (r: u32)
    ensures
        r == within_span(center as int, hz as int),
{
    let lo: u32 = center.saturating_sub(TUNE_SPAN_HZ);
    let hi: u32 = center.saturating_add(TUNE_SPAN_HZ);
    clamp(hz as i64, lo as i64, hi as i64) as u32
}

/// Something the dongle, or the DSP beside it, is told.
#[derive(Clone, Copy, Debug, PartialEq, Eq, Structural)]
pub enum Command {
    SetCenterFreq(u32),
    SetBandwidth(u32),
    SetSampleRate(u32),
    DisableAgc,
    EnableAgc,
    /// In tenths of a dB.
    SetTunerGain(i32),
    SetPpm(i32),
    ResetBuffer,
    CancelAsyncRead,
    /// The translator's offset from the centre. Not a device command.
    SetOffset(i64),
}

impl Command {
    /// The error to report when the device refuses the command; none where it
    /// cannot.
    pub open spec fn spec_failure(self) -> Option<CustomError> {
        match self {
            Command::SetCenterFreq(hz) => Some(CustomError::RtlSetFreq(hz)),
            Command::SetBandwidth(hz) => Some(CustomError::RtlSetBandwidth(hz)),
            Command::SetSampleRate(rate) => Some(CustomError::RtlSetSampleRate(rate)),
            Command::DisableAgc => Some(CustomError::RtlDisableAgc),
            Command::EnableAgc => Some(CustomError::RtlEnableAgc),
            Command::SetTunerGain(tenths) => Some(CustomError::RtlSetGain(tenths)),
            Command::SetPpm(ppm) => Some(CustomError::RtlSetPpm(ppm)),
            Command::ResetBuffer => Some(CustomError::RtlResetBuffer),
            Command::CancelAsyncRead => None,
            Command::SetOffset(_) => None,
        }
    }

    /// The error to report when the device refuses the command.
    pub fn failure(self) -> (e: Option<CustomError>)
        ensures
            e == self.spec_failure(),
    {
        match self {
            Command::SetCenterFreq(hz) => Some(CustomError::RtlSetFreq(hz)),
            Command::SetBandwidth(hz) => Some(CustomError::RtlSetBandwidth(hz)),
            Command::SetSampleRate(rate) => Some(CustomError::RtlSetSampleRate(rate)),
            Command::DisableAgc => Some(CustomError::RtlDisableAgc),
            Command::EnableAgc => Some(CustomError::RtlEnableAgc),
            Command::SetTunerGain(tenths) => Some(CustomError::RtlSetGain(tenths)),
            Command::SetPpm(ppm) => Some(CustomError::RtlSetPpm(ppm)),
            Command::ResetBuffer => Some(CustomError::RtlResetBuffer),
            Command::CancelAsyncRead => None,
            Command::SetOffset(_) => None,
        }
    }
}

/// What the radio is set to before it streams.
pub open spec fn setup_commands(sample_rate: u32, center_freq: u32, bandwidth: u32) -> Seq<Command> {
    seq![
        Command::SetCenterFreq(lo_of(center_freq)),
        Command::SetBandwidth(filter_width(bandwidth as int) as u32),
        Command::SetSampleRate(sample_rate),
        Command::DisableAgc,
    ]
}

/// The table in ascending order: the same entries, each as often as before.
pub open spec fn ascending(sorted: Seq<i32>, gains: Seq<i32>) -> bool {
    &&& sorted.to_multiset() == gains.to_multiset()
    &&& forall|i: int, j: int| 0 <= i <= j < sorted.len() ==> sorted[i] <= sorted[j]
}

/// Sort a gain table into ascending order. The Gain row steps the table by
/// index, so the order is load bearing.
pub fn sort_gains(gains: Vec<i32>) -> (sorted: Vec<i32>)
    ensures
        ascending(sorted@, gains@),
        sorted@.len() == gains@.len(),
{
    let mut v: Vec<i32> = gains;
    let n: usize = v.len();
    let mut i: usize = 0;
    while i < n
        invariant
            i <= n,
            v@.len() == n,
            gains@.len() == n,
            v@.to_multiset() == gains@.to_multiset(),
            forall|a: int, b: int| 0 <= a <= b < i ==> v@[a] <= v@[b],
        decreases n - i,
    {
        let mut k: usize = i;
        while k > 0 && v[k - 1] > v[k]
            invariant
                k <= i < n,
                v@.len() == n,
                v@.to_multiset() == gains@.to_multiset(),
                forall|a: int, b: int|
                    0 <= a <= b <= i && a != k && b != k ==> v@[a] <= v@[b],
                forall|b: int| k < b <= i ==> v@[k as int] <= v@[b],
            decreases k,
        {
            let ghost before = v@;
            let x: i32 = v[k];
            let y: i32 = v[k - 1];
            v[k - 1] = x;
            v[k] = y;
            proof {
                lemma_swap_keeps_entries(before, k as int - 1, k as int);
                assert(v@ =~= before.update(k as int - 1, before[k as int]).update(
                    k as int,
                    before[k as int - 1],
                ));
            }
            k -= 1;
        }
        assert forall|a: int, b: int| 0 <= a <= b < i + 1 implies v@[a] <= v@[b] by {
            if a < k && b == k {
                assert(v@[a] <= v@[k as int - 1]);
            }
        }
        i += 1;
    }
    v
}

/// Swapping two entries keeps every entry.
proof fn lemma_swap_keeps_entries(s: Seq<i32>, a: int, b: int)
    requires
        0 <= a < b < s.len(),
    ensures
        s.update(a, s[b]).update(b, s[a]).to_multiset() == s.to_multiset(),
{
    vstd::seq_lib::to_multiset_update(s, a, s[b]);
    vstd::seq_lib::to_multiset_update(s.update(a, s[b]), b, s[a]);
    s.to_multiset_ensures();
    assert(s.contains(s[a]));
    let m = s.to_multiset();
    assert(m.count(s[a]) > 0);
    assert(s.update(a, s[b]).update(b, s[a]).to_multiset() =~= m);
}

/// Something worth a line in the log.
#[derive(Clone, Copy, Debug, PartialEq, Eq, Structural)]
pub enum Notice {
    /// The IF filter that was set, and the channel it was set for.
    Filter { tuner_hz: u32, channel_hz: u32 },
    /// The tuner took another gain than it was asked for.
    OtherGain { took: i32, asked: i32 },
}

/// The radio as the thread that owns the dongle sees it.
pub struct Source {
    /// What the divider actually rounded the requested rate to.
    sample_rate: u32,
    /// The centre of the sampled span.
    center_freq: u32,
    /// Where the demodulated channel lies relative to the centre.
    offset_hz: i64,
    /// The gain the tuner actually accepted. Not necessarily what was asked for.
    pub applied_gain_tenths: i32,
    /// Every gain this tuner offers, ascending.
    pub gain_table: Vec<i32>,
}

/// The state of a [`Source`].
pub struct SourceView {
    pub sample_rate: u32,
    pub center_freq: u32,
    pub offset_hz: int,
    pub applied_gain_tenths: i32,
    pub gain_table: Seq<i32>,
}

impl View for Source {
    type V = SourceView;

    closed spec fn view(&self) -> SourceView {
        SourceView {
            sample_rate: self.sample_rate,
            center_freq: self.center_freq,
            offset_hz: self.offset_hz as int,
            applied_gain_tenths: self.applied_gain_tenths,
            gain_table: self.gain_table@,
        }
    }
}

/// A signal the controller can act on: a channel width whose filter fits the
/// driver's argument.
pub open spec fn acceptable(sig: CtrlSignal) -> bool {
    sig matches CtrlSignal::Bandwidth(hz) ==> filter_width(hz as int) <= u32::MAX
}

impl SourceView {
    /// What the device is told in answer to a signal.
    pub open spec fn commands(self, sig: CtrlSignal) -> Seq<Command> {
        match sig {
            CtrlSignal::CenterHz(hz) => seq![Command::SetCenterFreq(lo_of(hz))],
            CtrlSignal::TunedHz(hz) => seq![
                Command::SetOffset(
                    (within_span(self.center_freq as int, hz as int) - self.center_freq) as i64,
                ),
            ],
            CtrlSignal::Bandwidth(hz) => seq![
                Command::SetBandwidth(filter_width(hz as int) as u32),
            ],
            CtrlSignal::GainTenths(tenths) => seq![
                Command::DisableAgc,
                Command::SetTunerGain(snapped(self.gain_table, tenths)),
            ],
            CtrlSignal::AgcOn => seq![Command::EnableAgc],
            CtrlSignal::Ppm(ppm) => seq![Command::SetPpm(ppm)],
            CtrlSignal::Quit => seq![Command::CancelAsyncRead],
        }
    }

    /// The state after a signal.
    pub open spec fn after(self, sig: CtrlSignal) -> Self {
        match sig {
            CtrlSignal::CenterHz(hz) => SourceView { center_freq: hz, ..self },
            CtrlSignal::TunedHz(hz) => SourceView {
                offset_hz: within_span(self.center_freq as int, hz as int) - self.center_freq,
                ..self
            },
            _ => self,
        }
    }

    /// What is worth a line in the log about a signal.
    pub open spec fn notice(self, sig: CtrlSignal) -> Option<Notice> {
        match sig {
            CtrlSignal::Bandwidth(hz) => Some(
                Notice::Filter { tuner_hz: filter_width(hz as int) as u32, channel_hz: hz },
            ),
            CtrlSignal::GainTenths(tenths) => if snapped(self.gain_table, tenths) != tenths {
                Some(Notice::OtherGain { took: snapped(self.gain_table, tenths), asked: tenths })
            } else {
                None
            },
            _ => None,
        }
    }
}

impl Source {
    /// What to set on a freshly opened device, in order. AGC is off: it is
    /// digital, cannot improve the front end's noise figure, and rides the level
    /// against FM's constant envelope.
    pub fn setup(sample_rate: u32, center_freq: u32, bandwidth: u32) -> (plan: Vec<Command>)
        requires
            filter_width(bandwidth as int) <= u32::MAX,
        ensures
            plan@ == setup_commands(sample_rate, center_freq, bandwidth),
    {
        let lo: u32 = center_freq.saturating_sub(OFFSET_TUNING_HZ);
        let mut plan: Vec<Command> = Vec::new();
        plan.push(Command::SetCenterFreq(lo));
        plan.push(Command::SetBandwidth(tuner_bandwidth(bandwidth)));
        plan.push(Command::SetSampleRate(sample_rate));
        plan.push(Command::DisableAgc);
        plan
    }

    /// The radio once the device has been set up: `sample_rate` is what the
    /// device reports it runs at, `gains` what its tuner offers, and `gain_db`
    /// what was asked for. The channel starts on the centre.
    pub fn new(sample_rate: u32, center_freq: u32, gains: Vec<i32>, gain_db: u32) -> (s: Self)
        requires
            gain_db * 10 <= i32::MAX,
        ensures
            s@.sample_rate == sample_rate,
            s@.center_freq == center_freq,
            s@.offset_hz == 0,
            ascending(s@.gain_table, gains@),
            s@.gain_table.len() == gains@.len(),
            s@.applied_gain_tenths == snapped(s@.gain_table, (gain_db * 10) as i32),
    {
        let gain_table = sort_gains(gains);
        let applied_gain_tenths: i32 = snap_gain(gain_table.as_slice(), gain_db);
        Self { sample_rate, center_freq, offset_hz: 0, applied_gain_tenths, gain_table }
    }

    /// What is left to tell the device before it streams: the gain, and to flush
    /// stale USB buffers.
    pub fn start(&self) -> (plan: Vec<Command>)
        ensures
            plan@ == seq![Command::SetTunerGain(self@.applied_gain_tenths), Command::ResetBuffer],
    {
        let mut plan: Vec<Command> = Vec::new();
        plan.push(Command::SetTunerGain(self.applied_gain_tenths));
        plan.push(Command::ResetBuffer);
        plan
    }

    /// What the divider actually rounded the requested rate to.
    pub fn sample_rate(&self) -> (rate: u32)
        ensures
            rate == self@.sample_rate,
    {
        self.sample_rate
    }

    /// Act on one control signal: what to tell the device, in order.
    pub fn handle(&mut self, sig: CtrlSignal) -> (plan: Vec<Command>)
        requires
            acceptable(sig),
        ensures
            final(self)@ == old(self)@.after(sig),
            plan@ == old(self)@.commands(sig),
    {
        let mut plan: Vec<Command> = Vec::new();
        match sig {
            CtrlSignal::CenterHz(hz) => {
                let lo: u32 = hz.saturating_sub(OFFSET_TUNING_HZ);
                plan.push(Command::SetCenterFreq(lo));
                self.center_freq = hz;
            },
            CtrlSignal::TunedHz(hz) => {
                let tuned: u32 = clamp_tuned(self.center_freq, hz);
                self.offset_hz = tuned as i64 - self.center_freq as i64;
                plan.push(Command::SetOffset(self.offset_hz));
            },
            CtrlSignal::Bandwidth(hz) => {
                plan.push(Command::SetBandwidth(tuner_bandwidth(hz)));
            },
            CtrlSignal::GainTenths(tenths) => {
                plan.push(Command::DisableAgc);
                plan.push(
                    Command::SetTunerGain(snap_gain_tenths(self.gain_table.as_slice(), tenths)),
                );
            },
            CtrlSignal::AgcOn => {
                plan.push(Command::EnableAgc);
            },
            CtrlSignal::Ppm(ppm) => {
                plan.push(Command::SetPpm(ppm));
            },
            CtrlSignal::Quit => {
                plan.push(Command::CancelAsyncRead);
            },
        }
        plan
    }

    /// What is worth a line in the log about a signal.
    pub fn notice(&self, sig: CtrlSignal) -> (n: Option<Notice>)
        requires
            acceptable(sig),
        ensures
            n == self@.notice(sig),
    {
        match sig {
            CtrlSignal::Bandwidth(hz) => Some(
                Notice::Filter { tuner_hz: tuner_bandwidth(hz), channel_hz: hz },
            ),
            CtrlSignal::GainTenths(tenths) => {
                let took: i32 = snap_gain_tenths(self.gain_table.as_slice(), tenths);
                if took != tenths {
                    Some(Notice::OtherGain { took, asked: tenths })
                } else {
                    None
                }
            },
            _ => None,
        }
    }
}

/// Only tuning the channel changes the translator's offset; retuning the centre
/// carries the channel along.
pub proof fn only_tuning_moves_the_offset(s: SourceView, sig: CtrlSignal)
    requires
        !(sig is TunedHz),
    ensures
        s.after(sig).offset_hz == s.offset_hz,
{
}

/// A channel never leaves the tunable span, and one inside it is left where it
/// was asked for.
pub proof fn channel_stays_in_the_span(s: SourceView, hz: u32)
    ensures
        -TUNE_SPAN_HZ <= s.after(CtrlSignal::TunedHz(hz)).offset_hz <= TUNE_SPAN_HZ,
        -TUNE_SPAN_HZ <= hz - s.center_freq <= TUNE_SPAN_HZ ==> s.after(
            CtrlSignal::TunedHz(hz),
        ).offset_hz == hz - s.center_freq,
{
}

/// A snapped gain is one the tuner offers, none is nearer, and one the tuner
/// offers is left alone.
pub proof fn snapped_gain_is_offered(gains: Seq<i32>, want: i32)
    requires
        gains.len() > 0,
    ensures
        gains.contains(snapped(gains, want)),
        forall|i: int|
            0 <= i < gains.len() ==> distance(snapped(gains, want) as int, want as int)
                <= distance(#[trigger] gains[i] as int, want as int),
        gains.contains(want) ==> snapped(gains, want) == want,
{
    let all = ints_of_i32(gains);
    lemma_nearest_exists(all, want as int);
    let k = nearest(all, want as int);
    assert forall|i: int| 0 <= i < gains.len() implies distance(
        snapped(gains, want) as int,
        want as int,
    ) <= distance(#[trigger] gains[i] as int, want as int) by {
        assert(distance(all[k], want as int) <= distance(all[i], want as int));
    }
    if gains.contains(want) {
        let i = choose|i: int| 0 <= i < gains.len() && gains[i] == want;
        assert(distance(gains[i] as int, want as int) == 0);
    }
}

} // verus!
