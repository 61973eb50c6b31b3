//! What the controller's calls do.

use vstd::prelude::*;

use crate::control_signal::CtrlSignal;
use crate::exceptions::CustomError;
use crate::source::laws::off_by;
use crate::source::{
    clamp_tuned, filter_width, lo_of, snap_gain, snap_gain_tenths, snapped_gain_is_offered,
    sort_gains, tuner_bandwidth, Command, Notice, Source,
};

verus! {

/// The filter's width and the channel's place, from the two calls that compute them.
pub proof fn channel_fits_the_filter(channel_hz: u32, bw: u32, center: u32, hz: u32, r: u32)
    requires
        call_ensures(tuner_bandwidth, (channel_hz,), bw),
        call_ensures(clamp_tuned, (center, hz), r),
    ensures
        bw % 2 == 0,
        700_000 + channel_hz - 1 <= bw <= 700_000 + channel_hz,
        -1_000_000 <= r - center <= 1_000_000,
        -1_000_000 <= hz - center <= 1_000_000 ==> r == hz,
        hz - center > 1_000_000 ==> r == center + 1_000_000,
        hz - center < -1_000_000 ==> r == center - 1_000_000,
{
}

/// A gain that is asked for leads to the one of the table nearest to it, in tenths of a
/// dB or in dB; without a table it is taken as it is.
pub proof fn a_gain_is_the_nearest(
    gains: &[i32],
    want: i32,
    g: i32,
    db: u32,
    h: i32,
    i: int,
)
    requires
        call_ensures(snap_gain_tenths, (gains, want), g),
        10 * db <= i32::MAX,
        call_ensures(snap_gain, (gains, db), h),
        0 <= i < gains@.len(),
    ensures
        gains@.contains(g),
        off_by(g, want) <= off_by(gains@[i], want),
        gains@.contains(h),
        off_by(h, (10 * db) as i32) <= off_by(gains@[i], (10 * db) as i32),
{
    snapped_gain_is_offered(gains@, want);
    snapped_gain_is_offered(gains@, (10 * db) as i32);
}

/// Without a table there is nothing to snap to.
pub proof fn no_table_snaps_nothing(gains: &[i32], want: i32, g: i32)
    requires
        gains@.len() == 0,
        call_ensures(snap_gain_tenths, (gains, want), g),
    ensures
        g == want,
{
}

/// A table is sorted: the same gains, none above a later one.
pub proof fn gains_are_sorted(gains: Vec<i32>, sorted: Vec<i32>, i: int, j: int)
    requires
        call_ensures(sort_gains, (gains,), sorted),
        0 <= i <= j < sorted@.len(),
    ensures
        sorted@.len() == gains@.len(),
        sorted@.to_multiset() == gains@.to_multiset(),
        sorted@[i] <= sorted@[j],
{
}

/// A new source is on its centre, knows its gains in ascending order, and starts with
/// the one nearest to what was asked for: it is set, and what the device holds is
/// flushed.
pub proof fn new_source_is_on_its_centre(
    sample_rate: u32,
    center_freq: u32,
    gains: Vec<i32>,
    gain_db: u32,
    s: Source,
    plan: Vec<Command>,
    rate: u32,
    i: int,
)
    requires
        10 * gain_db <= i32::MAX,
        call_ensures(Source::new, (sample_rate, center_freq, gains, gain_db), s),
        call_ensures(Source::start, (&s,), plan),
        call_ensures(Source::sample_rate, (&s,), rate),
    ensures
        rate == sample_rate,
        s@.center_freq == center_freq,
        s@.offset_hz == 0,
        s@.gain_table.to_multiset() == gains@.to_multiset(),
        s@.gain_table.len() == gains@.len(),
        0 < i < s@.gain_table.len() ==> s@.gain_table[i - 1] <= s@.gain_table[i],
        plan@.len() == 2,
        plan@[0] is SetTunerGain,
        plan@[1] is ResetBuffer,
        gains@.len() == 0 ==> plan@[0]->SetTunerGain_0 == 10 * gain_db,
        0 <= i < s@.gain_table.len() ==> s@.gain_table.contains(plan@[0]->SetTunerGain_0)
            && off_by(plan@[0]->SetTunerGain_0, (10 * gain_db) as i32) <= off_by(
            s@.gain_table[i],
            (10 * gain_db) as i32,
        ),
{
    if s@.gain_table.len() > 0 {
        snapped_gain_is_offered(s@.gain_table, (10 * gain_db) as i32);
    }
}

/// The calls of a source do what its model says.
pub proof fn source_follows_its_signals(
    sample_rate: u32,
    center: u32,
    bandwidth: u32,
    setup: Vec<Command>,
    s: &mut Source,
    sig: CtrlSignal,
    plan: Vec<Command>,
    notice: Option<Notice>,
)
    requires
        filter_width(bandwidth as int) <= u32::MAX,
        call_ensures(Source::setup, (sample_rate, center, bandwidth), setup),
        call_ensures(Source::notice, (&*old(s), sig), notice),
        call_ensures(Source::handle, (s, sig), plan),
    ensures
        setup@.len() == 4,
        setup@[0] == Command::SetCenterFreq(lo_of(center)),
        setup@[1] is SetBandwidth,
        700_000 + bandwidth - 1 <= setup@[1]->SetBandwidth_0 <= 700_000 + bandwidth,
        setup@[2] == Command::SetSampleRate(sample_rate),
        setup@[3] == Command::DisableAgc,
        plan@ == old(s)@.commands(sig),
        final(s)@ == old(s)@.after(sig),
        notice == old(s)@.notice(sig),
{
}

/// Each command that the device can refuse has its error, with what was asked of it.
pub proof fn refusals_name_their_command(c: Command, e: Option<CustomError>)
    requires
        call_ensures(Command::failure, (c,), e),
    ensures
        c matches Command::SetCenterFreq(hz) ==> e == Some(CustomError::RtlSetFreq(hz)),
        c matches Command::SetBandwidth(hz) ==> e == Some(CustomError::RtlSetBandwidth(hz)),
        c matches Command::SetSampleRate(hz) ==> e == Some(CustomError::RtlSetSampleRate(hz)),
        c matches Command::SetTunerGain(g) ==> e == Some(CustomError::RtlSetGain(g)),
        c matches Command::SetPpm(ppm) ==> e == Some(CustomError::RtlSetPpm(ppm)),
        c is DisableAgc ==> e == Some(CustomError::RtlDisableAgc),
        c is EnableAgc ==> e == Some(CustomError::RtlEnableAgc),
        c is ResetBuffer ==> e == Some(CustomError::RtlResetBuffer),
        c is CancelAsyncRead || c is SetOffset ==> e is None,
{
}

} // verus!
