//! What the keys of the compact radio do, and what its tuner is told.

use vstd::prelude::*;

use crate::compact::control_signal::CtrlSignal;
use crate::compact::source::{command_for, setup_commands};
use crate::compact::stats_view::{Field, Reading, TunerView};
use crate::source::Command;
use crate::tui::key_laws::{ladders_go_rung_by_rung, nearest_within, next_entry};
use crate::utils::ints_of_u32;

verus! {

/// One press on a frequency, a gain or a correction moves it by the step, by one dB or
/// by one part in a million, in the direction of the key and no further than it goes;
/// the controller hears it and nothing else changes.
pub proof fn numbers_move_with_the_key(v: TunerView, dir: int)
    ensures
        ({
            let (t, sig) = Field::Freq.spec_adjust(v, dir);
            &&& nearest_within(
                v.center_freq + v.step * dir,
                24_000_000,
                1_766_000_000,
                t.center_freq as int,
            )
            &&& sig == Some(CtrlSignal::CenterHz(t.center_freq))
            &&& t == (TunerView { center_freq: t.center_freq, ..v })
        }),
        ({
            let (t, sig) = Field::Gain.spec_adjust(v, dir);
            &&& nearest_within(v.gain_db + dir, 0, 50, t.gain_db as int)
            &&& sig == Some(CtrlSignal::Gain(t.gain_db))
            &&& t == (TunerView { gain_db: t.gain_db, ..v })
        }),
        ({
            let (t, sig) = Field::Ppm.spec_adjust(v, dir);
            &&& nearest_within(v.ppm + dir, 0, 100, t.ppm as int)
            &&& sig == Some(CtrlSignal::Ppm(t.ppm))
            &&& t == (TunerView { ppm: t.ppm, ..v })
        }),
{
}

/// One press on Step goes one rung along 1, 5, 10, 50, 100 kHz and 1 MHz, unheard.
pub proof fn step_goes_rung_by_rung(v: TunerView, dir: int) -> (i: int)
    ensures
        ({
            let (t, sig) = Field::Step.spec_adjust(v, dir);
            &&& next_entry(
                seq![1_000int, 5_000, 10_000, 50_000, 100_000, 1_000_000],
                v.step as int,
                dir,
                i,
                t.step as int,
            )
            &&& sig is None
            &&& t == (TunerView { step: t.step, ..v })
        }),
{
    let ladder = crate::tui::control_view::STEP_LADDER@;
    assert(ints_of_u32(ladder) =~= seq![1_000int, 5_000, 10_000, 50_000, 100_000, 1_000_000]);
    ladders_go_rung_by_rung(ladder, v.step, dir)
}

/// One press on BW goes one rung along 50, 100, 200, 300, 500 kHz and 1 MHz, and the
/// controller hears it.
pub proof fn bandwidth_goes_rung_by_rung(v: TunerView, dir: int) -> (i: int)
    ensures
        ({
            let (t, sig) = Field::Bw.spec_adjust(v, dir);
            &&& next_entry(
                seq![50_000int, 100_000, 200_000, 300_000, 500_000, 1_000_000],
                v.bw as int,
                dir,
                i,
                t.bw as int,
            )
            &&& sig == Some(CtrlSignal::Bandwidth(t.bw))
            &&& t == (TunerView { bw: t.bw, ..v })
        }),
{
    let ladder = crate::tui::control_view::BW_LADDER@;
    assert(ints_of_u32(ladder) =~= seq![50_000int, 100_000, 200_000, 300_000, 500_000, 1_000_000]);
    ladders_go_rung_by_rung(ladder, v.bw, dir)
}

/// The cursor goes one row down for a positive direction and one up otherwise, around
/// the ends of Freq, Step, Gain, BW, PPM, and leaves the settings alone.
pub proof fn cursor_goes_down_the_list(v: TunerView, dir: int)
    requires
        v.selected < 5,
    ensures
        ({
            let t = v.spec_select(dir);
            &&& dir > 0 && v.selected < 4 ==> t.selected == v.selected + 1
            &&& dir > 0 && v.selected == 4 ==> t.selected == 0
            &&& dir <= 0 && v.selected > 0 ==> t.selected == v.selected - 1
            &&& dir <= 0 && v.selected == 0 ==> t.selected == 4
            &&& t == (TunerView { selected: t.selected, ..v })
        }),
        Field::ALL@ == seq![Field::Freq, Field::Step, Field::Gain, Field::Bw, Field::Ppm],
{
    assert(Field::ALL@ =~= seq![Field::Freq, Field::Step, Field::Gain, Field::Bw, Field::Ppm]);
}

/// What each row shows.
pub proof fn rows_show_their_settings(v: TunerView)
    ensures
        Field::Freq.spec_value(v) == Reading::Mhz(v.center_freq),
        Field::Step.spec_value(v) == Reading::Hz(v.step),
        Field::Gain.spec_value(v) == Reading::Db(v.gain_db),
        Field::Bw.spec_value(v) == Reading::Hz(v.bw),
        Field::Ppm.spec_value(v) == Reading::Plain(v.ppm),
{
}

/// Every signal is one command: frequencies and widths as they are, a gain in tenths
/// of the dB it is given in.
pub proof fn signals_reach_the_device(sig: CtrlSignal)
    ensures
        sig matches CtrlSignal::CenterHz(hz) ==> command_for(sig) == Command::SetCenterFreq(hz),
        sig matches CtrlSignal::Bandwidth(hz) ==> command_for(sig) == Command::SetBandwidth(hz),
        sig matches CtrlSignal::Gain(db) ==> (10 * db <= i32::MAX ==> command_for(sig)
            is SetTunerGain && command_for(sig)->SetTunerGain_0 == 10 * db),
        sig matches CtrlSignal::Ppm(ppm) ==> (ppm <= i32::MAX ==> command_for(sig) is SetPpm
            && command_for(sig)->SetPpm_0 == ppm),
        sig is Quit ==> command_for(sig) == Command::CancelAsyncRead,
{
}

/// Before it streams, the device is told, in this order: the frequency, the width, the
/// sample rate, to set the gain itself, and to flush what it holds.
pub proof fn device_is_set_up_in_order(rate: u32, center: u32, bandwidth: u32)
    ensures
        ({
            let plan = setup_commands(rate, center, bandwidth);
            &&& plan.len() == 5
            &&& plan[0] == Command::SetCenterFreq(center)
            &&& plan[1] == Command::SetBandwidth(bandwidth)
            &&& plan[2] == Command::SetSampleRate(rate)
            &&& plan[3] == Command::EnableAgc
            &&& plan[4] == Command::ResetBuffer
        }),
{
}

} // verus!
