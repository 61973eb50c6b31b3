//! What the dongle is told.

use vstd::prelude::*;

use crate::control_signal::CtrlSignal;
use crate::source::{
    filter_width, lo_of, setup_commands, snapped, snapped_gain_is_offered, within_span, Command,
    Notice, SourceView,
};

verus! {

/// The LO is parked 350 kHz below the station, or at 0 where there is no room.
pub proof fn lo_is_parked_below(hz: u32)
    ensures
        hz >= 350_000 ==> lo_of(hz) + 350_000 == hz,
        hz < 350_000 ==> lo_of(hz) == 0,
{
}

/// The filter is as wide as it takes to reach from the LO past the far edge of the
/// channel, on either side, and no wider.
pub proof fn filter_just_clears_the_channel(channel_hz: int)
    requires
        channel_hz >= 0,
    ensures
        filter_width(channel_hz) % 2 == 0,
        filter_width(channel_hz) >= 700_000 + channel_hz - 1,
        filter_width(channel_hz) <= 700_000 + channel_hz,
{
}

/// A channel within 1 MHz of the centre stays where it is, and one further out goes
/// to the nearest frequency that is not.
pub proof fn span_reaches_one_megahertz(center: u32, hz: u32)
    ensures
        ({
            let r = within_span(center as int, hz as int);
            &&& 0 <= r <= u32::MAX
            &&& -1_000_000 <= r - center <= 1_000_000
            &&& -1_000_000 <= hz - center <= 1_000_000 ==> r == hz
            &&& hz - center > 1_000_000 ==> r == center + 1_000_000
            &&& hz - center < -1_000_000 ==> r == center - 1_000_000
        }),
{
}

/// Before it streams, the device is told, in this order: where the LO goes, how wide
/// the filter is, the sample rate, and to leave the gain alone.
pub proof fn device_is_set_up_in_order(rate: u32, center: u32, bandwidth: u32)
    requires
        filter_width(bandwidth as int) <= u32::MAX,
    ensures
        ({
            let plan = setup_commands(rate, center, bandwidth);
            &&& plan.len() == 4
            &&& plan[0] == Command::SetCenterFreq(lo_of(center))
            &&& plan[1] == Command::SetBandwidth(filter_width(bandwidth as int) as u32)
            &&& plan[2] == Command::SetSampleRate(rate)
            &&& plan[3] == Command::DisableAgc
        }),
{
}

/// How far two gains are apart.
pub open spec fn off_by(a: i32, b: i32) -> int {
    if a <= b {
        b - a
    } else {
        a - b
    }
}

/// What a signal makes the device do, and what it changes: a centre moves the LO and
/// is remembered; a channel moves the translator and is remembered as its distance
/// from the centre; a width sets the filter; a gain takes the AGC off first and is
/// the one of the table nearest to it; the others are passed on as they are.
pub proof fn signals_reach_the_device(s: SourceView, sig: CtrlSignal)
    requires
        sig matches CtrlSignal::Bandwidth(hz) ==> filter_width(hz as int) <= u32::MAX,
    ensures
        ({
            let plan = s.commands(sig);
            let t = s.after(sig);
            &&& t.sample_rate == s.sample_rate
            &&& t.applied_gain_tenths == s.applied_gain_tenths
            &&& t.gain_table == s.gain_table
            &&& sig matches CtrlSignal::CenterHz(hz) ==> {
                &&& plan.len() == 1
                &&& plan[0] == Command::SetCenterFreq(lo_of(hz))
                &&& t.center_freq == hz
                &&& t.offset_hz == s.offset_hz
            }
            &&& sig matches CtrlSignal::TunedHz(hz) ==> {
                &&& plan.len() == 1
                &&& plan[0] == Command::SetOffset(t.offset_hz as i64)
                &&& t.center_freq == s.center_freq
                &&& -1_000_000 <= t.offset_hz <= 1_000_000
                &&& -1_000_000 <= hz - s.center_freq <= 1_000_000 ==> t.offset_hz == hz
                    - s.center_freq
                &&& hz - s.center_freq > 1_000_000 ==> t.offset_hz == 1_000_000
                &&& hz - s.center_freq < -1_000_000 ==> t.offset_hz == -1_000_000
            }
            &&& sig matches CtrlSignal::Bandwidth(hz) ==> plan.len() == 1 && plan[0]
                == Command::SetBandwidth(filter_width(hz as int) as u32) && t == s
            &&& sig matches CtrlSignal::GainTenths(want) ==> {
                &&& plan.len() == 2
                &&& plan[0] == Command::DisableAgc
                &&& plan[1] is SetTunerGain
                &&& s.gain_table.len() == 0 ==> plan[1]->SetTunerGain_0 == want
                &&& s.gain_table.len() > 0 ==> {
                    &&& s.gain_table.contains(plan[1]->SetTunerGain_0)
                    &&& forall|i: int|
                        0 <= i < s.gain_table.len() ==> off_by(plan[1]->SetTunerGain_0, want)
                            <= off_by(#[trigger] s.gain_table[i], want)
                }
                &&& t == s
            }
            &&& sig is AgcOn ==> plan.len() == 1 && plan[0] == Command::EnableAgc && t == s
            &&& sig matches CtrlSignal::Ppm(ppm) ==> plan.len() == 1 && plan[0]
                == Command::SetPpm(ppm) && t == s
            &&& sig is Quit ==> plan.len() == 1 && plan[0] == Command::CancelAsyncRead && t == s
        }),
{
    if let CtrlSignal::GainTenths(want) = sig {
        if s.gain_table.len() > 0 {
            snapped_gain_is_offered(s.gain_table, want);
            let g = snapped(s.gain_table, want);
            assert forall|i: int| 0 <= i < s.gain_table.len() implies off_by(g, want) <= off_by(
                #[trigger] s.gain_table[i],
                want,
            ) by {
                assert(crate::utils::distance(g as int, want as int) <= crate::utils::distance(
                    s.gain_table[i] as int,
                    want as int,
                ));
            }
        }
    }
}

/// What is worth a line in the log: the filter that a width leads to, and a gain that
/// is not the one asked for.
pub proof fn notices_tell_what_differs(s: SourceView, sig: CtrlSignal)
    requires
        sig matches CtrlSignal::Bandwidth(hz) ==> filter_width(hz as int) <= u32::MAX,
    ensures
        ({
            let n = s.notice(sig);
            &&& sig matches CtrlSignal::Bandwidth(hz) ==> n == Some(
                Notice::Filter { tuner_hz: filter_width(hz as int) as u32, channel_hz: hz },
            )
            &&& sig matches CtrlSignal::GainTenths(want) ==> (n is Some <==> s.gain_table.len() > 0
                && !s.gain_table.contains(want))
            &&& sig matches CtrlSignal::GainTenths(want) ==> (n matches Some(notice) ==> notice
                == (Notice::OtherGain { took: snapped(s.gain_table, want), asked: want }))
            &&& !(sig is Bandwidth) && !(sig is GainTenths) ==> n is None
        }),
{
    if let CtrlSignal::GainTenths(want) = sig {
        if s.gain_table.len() > 0 {
            snapped_gain_is_offered(s.gain_table, want);
        }
    }
}

} // verus!
