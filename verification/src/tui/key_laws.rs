//! What the arrow keys do to each setting, and what every key does to the UI.

use vstd::prelude::*;

use crate::control_signal::CtrlSignal;
use crate::tui::control_view::{
    neighbour, spec_gain_step, spec_rung, ControlViewState, Field, Reading,
};
use crate::tui::tui::{KeyCode, KeyEvent, Status, TuiView};
use crate::tui::tui_states::{Pane, TuiStates, TunerMode};
use crate::utils::{ints_of_i32, ints_of_u32, lemma_nearest_exists, nearest};

verus! {

/// How far two numbers are apart.
pub open spec fn apart(a: int, b: int) -> int {
    if a <= b {
        b - a
    } else {
        a - b
    }
}

/// `r` is the number from `lo` to `hi` that is nearest to `x`.
pub open spec fn nearest_within(x: int, lo: int, hi: int, r: int) -> bool {
    &&& lo <= r <= hi
    &&& forall|v: int| lo <= v <= hi ==> apart(r, x) <= #[trigger] apart(v, x)
}

/// One press on Tuned moves the channel by the step in the direction of the key,
/// where that is a frequency the tuners cover and within 1 MHz of the centre; the
/// controller hears it, and nothing else changes. Elsewhere the channel goes as far
/// that way as the span allows.
pub proof fn tuned_moves_by_the_step(s: TuiStates, gains: Seq<i32>, dir: int)
    ensures
        ({
            let (t, sig) = Field::Tuned.spec_adjust(s, gains, dir);
            let want = s.tuned_freq + s.step * dir;
            let lo = if s.center_freq < 1_000_000 {
                0
            } else {
                s.center_freq - 1_000_000
            };
            let hi = if s.center_freq + 1_000_000 > u32::MAX {
                u32::MAX as int
            } else {
                s.center_freq + 1_000_000
            };
            &&& 24_000_000 <= want <= 1_766_000_000 && lo <= want <= hi ==> t.tuned_freq == want
            &&& 24_000_000 <= want <= 1_766_000_000 ==> nearest_within(
                want,
                lo,
                hi,
                t.tuned_freq as int,
            )
            &&& lo <= t.tuned_freq <= hi
            &&& want < 24_000_000 ==> nearest_within(24_000_000, lo, hi, t.tuned_freq as int)
            &&& want > 1_766_000_000 ==> nearest_within(
                1_766_000_000,
                lo,
                hi,
                t.tuned_freq as int,
            )
            &&& sig == Some(CtrlSignal::TunedHz(t.tuned_freq))
            &&& t == (TuiStates { tuned_freq: t.tuned_freq, ..s })
        }),
{
}

/// One press on Freq moves the centre by the step in the direction of the key, or
/// as far that way as the tuners go, and the channel with it; the controller hears
/// the centre.
pub proof fn centre_moves_by_the_step(s: TuiStates, gains: Seq<i32>, dir: int)
    ensures
        ({
            let (t, sig) = Field::Freq.spec_adjust(s, gains, dir);
            let moved = t.center_freq - s.center_freq;
            &&& nearest_within(
                s.center_freq + s.step * dir,
                24_000_000,
                1_766_000_000,
                t.center_freq as int,
            )
            &&& 0 <= s.tuned_freq + moved <= u32::MAX ==> t.tuned_freq == s.tuned_freq + moved
            &&& s.tuned_freq + moved < 0 ==> t.tuned_freq == 0
            &&& sig == Some(CtrlSignal::CenterHz(t.center_freq))
            &&& t == (TuiStates { center_freq: t.center_freq, tuned_freq: t.tuned_freq, ..s })
        }),
{
}

/// `to` is the entry next to the one nearest `from`, up the list for a positive
/// direction and down it otherwise, or the last one that way.
pub open spec fn next_entry(list: Seq<int>, from: int, dir: int, i: int, to: int) -> bool {
    &&& 0 <= i < list.len()
    &&& forall|j: int| 0 <= j < list.len() ==> apart(list[i], from) <= apart(
        #[trigger] list[j],
        from,
    )
    &&& forall|j: int| 0 <= j < i ==> apart(list[i], from) < apart(#[trigger] list[j], from)
    &&& dir > 0 && i + 1 < list.len() ==> to == list[i + 1]
    &&& dir > 0 && i + 1 == list.len() ==> to == list[i]
    &&& dir <= 0 && i > 0 ==> to == list[i - 1]
    &&& dir <= 0 && i == 0 ==> to == list[0]
}

/// The nearest entry, and the one next to it.
proof fn lemma_next_entry(list: Seq<int>, from: int, dir: int)
    requires
        list.len() > 0,
    ensures
        ({
            let i = nearest(list, from);
            next_entry(list, from, dir, i, list[neighbour(i, list.len() as int, dir)])
        }),
{
    lemma_nearest_exists(list, from);
    let i = nearest(list, from);
    assert forall|j: int| 0 <= j < list.len() implies apart(list[i], from) <= apart(
        #[trigger] list[j],
        from,
    ) by {
        assert(crate::utils::distance(list[i], from) <= crate::utils::distance(list[j], from));
    }
    assert forall|j: int| 0 <= j < i implies apart(list[i], from) < apart(
        #[trigger] list[j],
        from,
    ) by {
        assert(crate::utils::distance(list[i], from) < crate::utils::distance(list[j], from));
    }
}

/// A ladder is climbed by one rung a press, from the one nearest to where one is,
/// and no further than its ends.
pub proof fn ladders_go_rung_by_rung(ladder: Seq<u32>, cur: u32, dir: int) -> (i: int)
    requires
        ladder.len() > 0,
    ensures
        next_entry(ints_of_u32(ladder), cur as int, dir, i, spec_rung(ladder, cur, dir) as int),
{
    lemma_next_entry(ints_of_u32(ladder), cur as int, dir);
    nearest(ints_of_u32(ladder), cur as int)
}

/// One press on Step goes one rung along 1, 5, 10, 50, 100 kHz and 1 MHz; the device
/// does not hear of it.
pub proof fn step_goes_rung_by_rung(s: TuiStates, gains: Seq<i32>, dir: int) -> (i: int)
    ensures
        ({
            let (t, sig) = Field::Step.spec_adjust(s, gains, dir);
            &&& next_entry(
                seq![1_000int, 5_000, 10_000, 50_000, 100_000, 1_000_000],
                s.step as int,
                dir,
                i,
                t.step as int,
            )
            &&& sig is None
            &&& t == (TuiStates { step: t.step, ..s })
        }),
{
    let ladder = crate::tui::control_view::STEP_LADDER@;
    assert(ints_of_u32(ladder) =~= seq![1_000int, 5_000, 10_000, 50_000, 100_000, 1_000_000]);
    ladders_go_rung_by_rung(ladder, s.step, dir)
}

/// One press on BW goes one rung along 50, 100, 200, 300, 500 kHz and 1 MHz, and the
/// controller hears it.
pub proof fn bandwidth_goes_rung_by_rung(s: TuiStates, gains: Seq<i32>, dir: int) -> (i: int)
    ensures
        ({
            let (t, sig) = Field::Bw.spec_adjust(s, gains, dir);
            &&& next_entry(
                seq![50_000int, 100_000, 200_000, 300_000, 500_000, 1_000_000],
                s.bandwidth as int,
                dir,
                i,
                t.bandwidth as int,
            )
            &&& sig == Some(CtrlSignal::Bandwidth(t.bandwidth))
            &&& t == (TuiStates { bandwidth: t.bandwidth, ..s })
        }),
{
    let ladder = crate::tui::control_view::BW_LADDER@;
    assert(ints_of_u32(ladder) =~= seq![50_000int, 100_000, 200_000, 300_000, 500_000, 1_000_000]);
    ladders_go_rung_by_rung(ladder, s.bandwidth, dir)
}

/// One press on Gain goes one entry along the tuner's own table, takes it out of the
/// AGC's hands and says so with one signal. Without a table the gain stays.
pub proof fn gain_goes_along_the_table(s: TuiStates, gains: Seq<i32>, dir: int) -> (i: int)
    ensures
        ({
            let (t, sig) = Field::Gain.spec_adjust(s, gains, dir);
            &&& gains.len() > 0 ==> next_entry(
                ints_of_i32(gains),
                s.gain_tenths as int,
                dir,
                i,
                t.gain_tenths as int,
            )
            &&& gains.len() == 0 ==> t.gain_tenths == s.gain_tenths
            &&& !t.agc
            &&& sig == Some(CtrlSignal::GainTenths(t.gain_tenths))
            &&& t == (TuiStates { gain_tenths: t.gain_tenths, agc: false, ..s })
        }),
{
    if gains.len() > 0 {
        lemma_next_entry(ints_of_i32(gains), s.gain_tenths as int, dir);
        assert(spec_gain_step(gains, s.gain_tenths, dir) as int == ints_of_i32(gains)[neighbour(
            nearest(ints_of_i32(gains), s.gain_tenths as int),
            gains.len() as int,
            dir,
        )]);
    }
    nearest(ints_of_i32(gains), s.gain_tenths as int)
}

/// One press on Mode goes to the next mode of the list in the direction of the key,
/// around its ends; the device does not hear of it.
pub proof fn modes_are_in_their_order(s: TuiStates, gains: Seq<i32>, dir: int, i: int)
    requires
        0 <= i < 6,
        s.mode == seq![
            TunerMode::WbFm,
            TunerMode::Nfm,
            TunerMode::Am,
            TunerMode::Usb,
            TunerMode::Lsb,
            TunerMode::Raw,
        ][i],
    ensures
        ({
            let list = seq![
                TunerMode::WbFm,
                TunerMode::Nfm,
                TunerMode::Am,
                TunerMode::Usb,
                TunerMode::Lsb,
                TunerMode::Raw,
            ];
            let (t, sig) = Field::Mode.spec_adjust(s, gains, dir);
            &&& dir > 0 && i < 5 ==> t.mode == list[i + 1]
            &&& dir > 0 && i == 5 ==> t.mode == list[0]
            &&& dir <= 0 && i > 0 ==> t.mode == list[i - 1]
            &&& dir <= 0 && i == 0 ==> t.mode == list[5]
            &&& sig is None
            &&& t == (TuiStates { mode: t.mode, ..s })
        }),
{
    assert(i == 0 || i == 1 || i == 2 || i == 3 || i == 4 || i == 5);
}

/// The switches: AGC and Mute turn over, the de-emphasis goes between 50 and 75
/// microseconds, whichever key is pressed. Turning AGC off restores the gain that is
/// shown; the other two are no business of the device.
pub proof fn switches_turn_over(s: TuiStates, gains: Seq<i32>, dir: int)
    ensures
        ({
            let (t, sig) = Field::Agc.spec_adjust(s, gains, dir);
            &&& t == (TuiStates { agc: !s.agc, ..s })
            &&& t.agc ==> sig == Some(CtrlSignal::AgcOn)
            &&& !t.agc ==> sig == Some(CtrlSignal::GainTenths(s.gain_tenths))
        }),
        ({
            let (t, sig) = Field::Mute.spec_adjust(s, gains, dir);
            t == (TuiStates { muted: !s.muted, ..s }) && sig is None
        }),
        ({
            let (t, sig) = Field::Deemph.spec_adjust(s, gains, dir);
            &&& t == (TuiStates { deemph_us: t.deemph_us, ..s })
            &&& s.deemph_us == 50 ==> t.deemph_us == 75
            &&& s.deemph_us != 50 ==> t.deemph_us == 50
            &&& sig is None
        }),
{
}

/// One press moves the frequency correction by one part in a million, and the volume
/// by five, in the direction of the key and no further than they go. The controller
/// hears the correction.
pub proof fn numbers_move_with_the_key(s: TuiStates, gains: Seq<i32>, dir: int)
    ensures
        ({
            let (t, sig) = Field::Ppm.spec_adjust(s, gains, dir);
            &&& nearest_within(s.ppm + dir, -100, 100, t.ppm as int)
            &&& sig == Some(CtrlSignal::Ppm(t.ppm))
            &&& t == (TuiStates { ppm: t.ppm, ..s })
        }),
        ({
            let (t, sig) = Field::Volume.spec_adjust(s, gains, dir);
            &&& nearest_within(s.volume + 5 * dir, 0, 100, t.volume as int)
            &&& sig is None
            &&& t == (TuiStates { volume: t.volume, ..s })
        }),
{
}

/// One press moves an end of the colour range by 2 dB in the direction of the key,
/// and the other end only as far as it takes to keep 10 dB between them.
pub proof fn range_ends_move_with_the_key(s: TuiStates, gains: Seq<i32>, dir: int)
    requires
        i32::MIN + 10 <= s.floor_db + 2 * dir <= i32::MAX - 10,
        i32::MIN + 10 <= s.ceil_db + 2 * dir <= i32::MAX - 10,
    ensures
        ({
            let (t, sig) = Field::Floor.spec_adjust(s, gains, dir);
            &&& t.floor_db == s.floor_db + 2 * dir
            &&& s.ceil_db >= t.floor_db + 10 ==> t.ceil_db == s.ceil_db
            &&& s.ceil_db < t.floor_db + 10 ==> t.ceil_db == t.floor_db + 10
            &&& sig is None
            &&& t == (TuiStates { floor_db: t.floor_db, ceil_db: t.ceil_db, ..s })
        }),
        ({
            let (t, sig) = Field::Ceil.spec_adjust(s, gains, dir);
            &&& t.ceil_db == s.ceil_db + 2 * dir
            &&& s.floor_db <= t.ceil_db - 10 ==> t.floor_db == s.floor_db
            &&& s.floor_db > t.ceil_db - 10 ==> t.floor_db == t.ceil_db - 10
            &&& sig is None
            &&& t == (TuiStates { floor_db: t.floor_db, ceil_db: t.ceil_db, ..s })
        }),
{
}

/// A row shows the setting that its keys change: whatever a press leaves of the
/// settings, every other row but those that move along shows what it did.
pub proof fn a_row_shows_what_its_keys_change(
    f: Field,
    g: Field,
    s: TuiStates,
    gains: Seq<i32>,
    dir: int,
)
    requires
        f != g,
        !(f is Freq && g is Tuned),
        !(f is Gain && g is Agc),
        !(f is Floor && g is Ceil),
        !(f is Ceil && g is Floor),
    ensures
        g.spec_value(f.spec_adjust(s, gains, dir).0) == g.spec_value(s),
{
}

/// What each row shows.
pub proof fn rows_show_their_settings(s: TuiStates)
    ensures
        Field::Mode.spec_value(s) == Reading::Mode(s.mode),
        Field::Freq.spec_value(s) == Reading::Mhz(s.center_freq),
        Field::Tuned.spec_value(s) == Reading::Mhz(s.tuned_freq),
        Field::Step.spec_value(s) == Reading::Hz(s.step),
        Field::Gain.spec_value(s) == Reading::TenthsDb(s.gain_tenths),
        Field::Agc.spec_value(s) == Reading::Switch(s.agc),
        Field::Bw.spec_value(s) == Reading::Hz(s.bandwidth),
        Field::Ppm.spec_value(s) == Reading::Ppm(s.ppm),
        Field::Volume.spec_value(s) == Reading::Plain(s.volume),
        Field::Mute.spec_value(s) == Reading::Switch(s.muted),
        Field::Deemph.spec_value(s) == Reading::Micros(s.deemph_us),
        Field::Floor.spec_value(s) == Reading::Db(s.floor_db),
        Field::Ceil.spec_value(s) == Reading::Db(s.ceil_db),
{
}

/// A setting that has no effect is marked: a mode that is not wide-band FM, the gain
/// while AGC has it, and the volume while the sound is off; no other ever is.
pub proof fn only_what_has_no_effect_is_struck_through(f: Field, s: TuiStates)
    ensures
        f.spec_inert(s) <==> (f is Mode && !(s.mode is WbFm)) || (f is Gain && s.agc) || (f is Volume
            && s.muted),
{
}

/// The cursor goes one row down for a positive direction and one up otherwise, and
/// around the ends.
pub proof fn cursor_goes_down_the_list(v: ControlViewState, dir: int)
    requires
        v.wf(),
    ensures
        ({
            let t = v.select(dir);
            &&& dir > 0 && v.selected < 12 ==> t.selected == v.selected + 1
            &&& dir > 0 && v.selected == 12 ==> t.selected == 0
            &&& dir <= 0 && v.selected > 0 ==> t.selected == v.selected - 1
            &&& dir <= 0 && v.selected == 0 ==> t.selected == 12
            &&& t.gain_table == v.gain_table
        }),
{
}

/// The arrows up and down: in the Control panel the cursor moves a row that way; in
/// the log, up goes one line further back and down one line forward.
pub proof fn vertical_arrows_move_what_has_the_focus(t: TuiView, k: KeyEvent)
    requires
        t.wf(),
        k.press,
        k.code is Up || k.code is Down,
    ensures
        ({
            let (u, o) = t.on_key(k);
            let down = k.code is Down;
            let n = t.states.log_scroll;
            &&& !o.quit && o.signal is None && o.status is None
            &&& u.status == t.status
            &&& t.states.focus is Control ==> {
                &&& u.states == t.states
                &&& u.control == t.control.select(
                    if down {
                        1
                    } else {
                        -1
                    },
                )
            }
            &&& t.states.focus is Log ==> {
                &&& u.control == t.control
                &&& u.states == (TuiStates { log_scroll: u.states.log_scroll, ..t.states })
                &&& down && n > 0 ==> u.states.log_scroll == n - 1
                &&& down && n == 0 ==> u.states.log_scroll == 0
                &&& !down && n < usize::MAX ==> u.states.log_scroll == n + 1
                &&& !down && n == usize::MAX ==> u.states.log_scroll == n
            }
        }),
{
}

/// The arrows left and right adjust the row under the cursor, left by one step down
/// and right by one step up, and the status bar says what it then shows.
pub proof fn horizontal_arrows_adjust_the_row(t: TuiView, k: KeyEvent)
    requires
        t.wf(),
        k.press,
        k.code is Left || k.code is Right,
    ensures
        ({
            let (u, o) = t.on_key(k);
            let f = Field::ALL@[t.control.selected];
            let (states, signal) = f.spec_adjust(
                t.states,
                t.control.gain_table,
                if k.code is Right {
                    1
                } else {
                    -1
                },
            );
            &&& u == (TuiView { states, ..t })
            &&& o.signal == signal
            &&& o.status == Some(Status::Field(f, f.spec_value(states)))
            &&& !o.quit
        }),
{
}

/// The keys with a letter: `]` and `[` move the bottom of the colour range by 2 dB up
/// and down, `m` turns the sound on or off, `g` goes to the newest line of the log;
/// the first three are said on the status bar. No other letter does anything, but
/// for `q` and, with the control key, `c`.
pub proof fn letters_do_what_they_say(t: TuiView, k: KeyEvent, c: char)
    requires
        k.press,
        k.code == KeyCode::Char(c),
        i32::MIN + 2 <= t.states.floor_db <= i32::MAX - 2,
    ensures
        ({
            let (u, o) = t.on_key(k);
            let quits = c == 'q' || (c == 'c' && k.ctrl);
            &&& o.quit <==> quits
            &&& quits ==> u == t && o.signal == Some(CtrlSignal::Quit) && o.status is None
            &&& !quits ==> o.signal is None
            &&& u.control == t.control && u.status == t.status
            &&& c == ']' ==> u.states == (TuiStates {
                floor_db: (t.states.floor_db + 2) as i32,
                ..t.states
            }) && o.status == Some(Status::Floor((t.states.floor_db + 2) as i32))
            &&& c == '[' ==> u.states == (TuiStates {
                floor_db: (t.states.floor_db - 2) as i32,
                ..t.states
            }) && o.status == Some(Status::Floor((t.states.floor_db - 2) as i32))
            &&& c == 'm' ==> u.states == (TuiStates { muted: !t.states.muted, ..t.states })
                && o.status == Some(Status::Muted(!t.states.muted))
            &&& c == 'g' ==> u.states == (TuiStates { log_scroll: 0, ..t.states })
                && o.status is None
            &&& !quits && c != ']' && c != '[' && c != 'm' && c != 'g' ==> u == t
                && o.status is None
        }),
{
}

/// The other keys: tab, forward or back, goes to the other pane and to the tail of
/// the log; escape leaves; a key the UI does not know does nothing.
pub proof fn other_keys_do_what_they_say(t: TuiView, k: KeyEvent)
    requires
        k.press,
        k.code is Tab || k.code is BackTab || k.code is Esc || k.code is Other,
    ensures
        ({
            let (u, o) = t.on_key(k);
            &&& u.control == t.control && u.status == t.status && o.status is None
            &&& k.code is Tab || k.code is BackTab ==> {
                &&& t.states.focus is Control ==> u.states == (TuiStates {
                    focus: Pane::Log,
                    log_scroll: 0,
                    ..t.states
                })
                &&& t.states.focus is Log ==> u.states == (TuiStates {
                    focus: Pane::Control,
                    log_scroll: 0,
                    ..t.states
                })
                &&& !o.quit && o.signal is None
            }
            &&& k.code is Esc ==> u == t && o.quit && o.signal == Some(CtrlSignal::Quit)
            &&& k.code is Other ==> u == t && !o.quit && o.signal is None
        }),
{
}

} // verus!
