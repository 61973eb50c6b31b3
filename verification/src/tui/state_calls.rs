//! What the calls on the UI's state do.

use vstd::prelude::*;

use crate::control_signal::CtrlSignal;
use crate::log::Level;
use crate::text::{decimal, tenths};
use crate::tui::app_states::AppStates;
use crate::tui::control_view::{
    fmt_hz, gain_step, offset, on_off, rung, spec_gain_step, spec_rung, ControlView, Field,
    HzUnit, Reading, Topic,
};
use crate::tui::key_laws::nearest_within;
use crate::tui::signal_view::{SignalState, SignalView, SpectrumStyle};
use crate::tui::tui::{KeyEvent, Outcome, Tui};
use crate::tui::tui_states::{Health, Pane, TuiStates, TunerMode};

verus! {

/// The UI starts on the Control panel, at the newest line of the log, with the AGC on,
/// the sound on at the lowest volume, 50 µs of de-emphasis and wide-band FM, and with
/// nothing measured.
pub proof fn ui_starts_so(
    sample_rate: u32,
    audio_rate: u32,
    center_freq: u32,
    tuned_freq: u32,
    step: u32,
    gain_tenths: i32,
    bandwidth: u32,
    ppm: i32,
    floor_db: i32,
    ceil_db: i32,
    s: TuiStates,
    h: Health,
)
    requires
        call_ensures(
            TuiStates::new,
            (
                sample_rate,
                audio_rate,
                center_freq,
                tuned_freq,
                step,
                gain_tenths,
                bandwidth,
                ppm,
                floor_db,
                ceil_db,
            ),
            s,
        ),
        call_ensures(Health::new, (), h),
    ensures
        s.sample_rate == sample_rate,
        s.audio_rate == audio_rate,
        s.center_freq == center_freq,
        s.tuned_freq == tuned_freq,
        s.step == step,
        s.gain_tenths == gain_tenths,
        s.agc,
        s.bandwidth == bandwidth,
        s.ppm == ppm,
        s.volume == 1,
        !s.muted,
        s.deemph_us == 50,
        s.mode is WbFm,
        s.focus is Control,
        s.floor_db == floor_db,
        s.ceil_db == ceil_db,
        s.log_scroll == 0,
        s.health.iq_drops == 0 && s.health.iq_laps == 0 && s.health.underruns == 0,
        s.health.rssi_dbfs_x10 == i32::MIN && s.health.snr_db_x10 == i32::MIN,
        h == s.health,
{
}

/// The radio starts with the AGC off, the sound on at 70, 50 µs of de-emphasis and
/// wide-band FM, and with nothing measured.
pub proof fn radio_starts_so(
    sample_rate: u32,
    audio_rate: u32,
    center_freq: u32,
    gain_tenths: i32,
    bandwidth: u32,
    ppm: i32,
    s: AppStates,
    m: TunerMode,
)
    requires
        call_ensures(
            AppStates::new,
            (sample_rate, audio_rate, center_freq, gain_tenths, bandwidth, ppm),
            s,
        ),
        call_ensures(AppStates::mode, (&s,), m),
    ensures
        s.sample_rate == sample_rate,
        s.audio_rate == audio_rate,
        s.center_freq == center_freq,
        s.gain_tenths == gain_tenths,
        !s.agc,
        s.bandwidth == bandwidth,
        s.ppm == ppm,
        s.volume == 70,
        !s.muted,
        s.deemph_us == 50,
        m is WbFm,
        s.health.iq_drops == 0 && s.health.iq_laps == 0 && s.health.underruns == 0,
        s.health.rssi_dbfs_x10 == i32::MIN && s.health.snr_db_x10 == i32::MIN,
{
}

/// A mode that is set is the mode that is read, on either side, and nothing else changes.
pub proof fn mode_that_is_set_is_read(
    a: &mut AppStates,
    mode: TunerMode,
    now: AppStates,
    m: TunerMode,
    s: &mut TuiStates,
)
    requires
        call_ensures(AppStates::set_mode, (a, mode), ()),
        now == *final(a),
        call_ensures(AppStates::mode, (&now,), m),
        call_ensures(TuiStates::set_mode, (s, mode), ()),
    ensures
        m == mode,
        *final(a) == (AppStates { mode: final(a).mode, ..*old(a) }),
        final(s).mode == mode,
        *final(s) == (TuiStates { mode, ..*old(s) }),
{
}

/// Every mode has its number, in the order of the list, and is read back from it; any
/// other number is wide-band FM. Only that mode is implemented.
pub proof fn modes_have_their_numbers(
    m: TunerMode,
    v: u8,
    back: TunerMode,
    n: u8,
    other: TunerMode,
    label: &'static str,
    done: bool,
)
    requires
        call_ensures(TunerMode::to_u8, (m,), v),
        call_ensures(TunerMode::from_u8, (v,), back),
        call_ensures(TunerMode::from_u8, (n,), other),
        call_ensures(TunerMode::label, (m,), label),
        call_ensures(TunerMode::implemented, (m,), done),
    ensures
        back == m,
        v < 6,
        TunerMode::ALL@[v as int] == m,
        n < 6 ==> other == TunerMode::ALL@[n as int],
        n >= 6 ==> other is WbFm,
        done <==> m is WbFm,
        m is WbFm ==> v == 0 && label@ == "WFM"@,
        m is Nfm ==> v == 1 && label@ == "NFM"@,
        m is Am ==> v == 2 && label@ == "AM"@,
        m is Usb ==> v == 3 && label@ == "USB"@,
        m is Lsb ==> v == 4 && label@ == "LSB"@,
        m is Raw ==> v == 5 && label@ == "RAW"@,
{
}

/// Getters get, and Tab goes to the other pane.
pub proof fn getters_get(
    s: TuiStates,
    a: u32,
    b: u32,
    c: u32,
    d: u32,
    e: i32,
    f: i32,
    g: i32,
    p: Pane,
    q: Pane,
)
    requires
        call_ensures(TuiStates::sample_rate, (&s,), a),
        call_ensures(TuiStates::audio_rate, (&s,), b),
        call_ensures(TuiStates::center_freq, (&s,), c),
        call_ensures(TuiStates::tuned_freq, (&s,), d),
        call_ensures(TuiStates::gain_tenths, (&s,), e),
        call_ensures(TuiStates::floor_db, (&s,), f),
        call_ensures(TuiStates::ceil_db, (&s,), g),
        call_ensures(Pane::next, (p,), q),
    ensures
        a == s.sample_rate,
        b == s.audio_rate,
        c == s.center_freq,
        d == s.tuned_freq,
        e == s.gain_tenths,
        f == s.floor_db,
        g == s.ceil_db,
        p is Control ==> q is Log,
        p is Log ==> q is Control,
{
}

/// A width is in the unit that leaves it a number from 1 to 999, as far as there is one.
pub proof fn widths_have_their_unit(hz: u32, unit: HzUnit, on: &'static str, off: &'static str)
    requires
        call_ensures(fmt_hz, (hz,), unit),
        call_ensures(on_off, (true,), on),
        call_ensures(on_off, (false,), off),
    ensures
        unit is Hz <==> hz < 1_000,
        unit is Khz <==> 1_000 <= hz < 1_000_000,
        unit is Mhz <==> hz >= 1_000_000,
        on@ == "on"@,
        off@ == "off"@,
{
}

/// A setting that is moved goes no further than its range, and the ladders and the gain
/// table are climbed as their models say.
pub proof fn settings_stay_in_range(
    cur: u32,
    delta: i64,
    lo: u32,
    hi: u32,
    r: u32,
    ladder: &[u32],
    dir: i32,
    next: u32,
    table: &[i32],
    gain: i32,
    g: i32,
)
    requires
        lo <= hi,
        call_ensures(offset, (cur, delta, (lo, hi)), r),
        call_ensures(rung, (ladder, cur, dir), next),
        call_ensures(gain_step, (table, gain, dir), g),
    ensures
        nearest_within(cur + delta, lo as int, hi as int, r as int),
        next == spec_rung(ladder@, cur, dir as int),
        g == spec_gain_step(table@, gain, dir as int),
{
}

/// The calls on a row do what the row's model says.
pub proof fn rows_do_as_they_say(
    f: Field,
    s: TuiStates,
    section: Option<&'static str>,
    label: &'static str,
    value: Reading,
    inert: bool,
    t: &mut TuiStates,
    table: &[i32],
    dir: i32,
    sig: Option<CtrlSignal>,
)
    requires
        call_ensures(Field::section, (f,), section),
        call_ensures(Field::label, (f,), label),
        call_ensures(Field::value, (f, &s), value),
        call_ensures(Field::inert, (f, &s), inert),
        call_ensures(Field::adjust, (f, t, table, dir), sig),
    ensures
        section is Some <==> f is Mode || f is Volume || f is Floor,
        section matches Some(name) ==> f.spec_section() == Some(name@),
        label@ == f.spec_label(),
        value == f.spec_value(s),
        inert == f.spec_inert(s),
        (*final(t), sig) == f.spec_adjust(*old(t), table@, dir as int),
{
}

/// What goes into the log after a row was adjusted: a mode, as a warning where it is not
/// implemented, a gain, the AGC, a width or the de-emphasis; and that the AGC is off,
/// where reaching for the gain has put it off.
pub proof fn adjustments_are_logged(
    f: Field,
    before: TuiStates,
    after: TuiStates,
    n: Option<(Level, Topic)>,
    lines: Vec<(Level, Topic)>,
)
    requires
        call_ensures(Field::notice, (f, &after), n),
        call_ensures(Field::notices, (f, &before, &after), lines),
    ensures
        f is Mode ==> n == Some(
            (
                if after.mode is WbFm {
                    Level::Info
                } else {
                    Level::Warn
                },
                Topic::Mode(after.mode),
            ),
        ),
        f is Gain ==> n == Some((Level::Info, Topic::Gain(after.gain_tenths))),
        f is Agc ==> n == Some((Level::Info, Topic::Agc(after.agc))),
        f is Bw ==> n == Some((Level::Info, Topic::Bandwidth(after.bandwidth))),
        f is Deemph ==> n == Some((Level::Info, Topic::Deemph(after.deemph_us))),
        n is Some <==> f is Mode || f is Gain || f is Agc || f is Bw || f is Deemph,
        n matches Some(line) ==> lines@[0] == line,
        n is None ==> lines@.len() == 0,
        n is Some ==> lines@.len() == if f is Gain && before.agc && !after.agc {
            2int
        } else {
            1
        },
        lines@.len() == 2 ==> lines@[1] == (Level::Info, Topic::Manual),
{
}

/// How such a line reads.
pub proof fn log_lines_read_so(m: TunerMode, t: i32, us: u32, hz: u32, width: Seq<char>)
    ensures
        m is WbFm ==> Topic::Mode(m).spec_text(width) == "mode "@ + m.spec_label(),
        !(m is WbFm) ==> Topic::Mode(m).spec_text(width) == "mode "@ + m.spec_label()
            + " selected but not implemented"@,
        Topic::Gain(t).spec_text(width) == "gain "@ + tenths(t as int) + " dB"@,
        Topic::Agc(true).spec_text(width) == "AGC on"@,
        Topic::Agc(false).spec_text(width) == "AGC off"@,
        Topic::Manual.spec_text(width) == "AGC off (manual gain)"@,
        Topic::Bandwidth(hz).spec_text(width) == "channel bandwidth "@ + width,
        Topic::Deemph(us).spec_text(width) == "de-emphasis "@ + decimal(us as nat)
            + " \u{b5}s"@,
{
    reveal_strlit("");
    assert("mode "@ + m.spec_label() + ""@ =~= "mode "@ + m.spec_label());
}

/// The calls on the panel's cursor do what its model says.
pub proof fn cursor_does_as_it_says(
    gains: Vec<i32>,
    fresh: ControlView,
    v: &mut ControlView,
    dir: i32,
    w: &ControlView,
    at: usize,
    f: Field,
    s: TuiStates,
    shown: (&'static str, Reading),
    t: &mut TuiStates,
    sig: Option<CtrlSignal>,
)
    requires
        call_ensures(ControlView::new, (gains,), fresh),
        old(v)@.wf(),
        call_ensures(ControlView::select, (v, dir), ()),
        w@.wf(),
        call_ensures(ControlView::cursor, (w,), at),
        call_ensures(ControlView::field, (w,), f),
        call_ensures(ControlView::focused, (w, &s), shown),
        call_ensures(ControlView::adjust, (w, t, dir), sig),
    ensures
        fresh@.selected == 0,
        fresh@.gain_table == gains@,
        final(v)@ == old(v)@.select(dir as int),
        at == w@.selected,
        f == Field::ALL@[at as int],
        shown.0@ == f.spec_label(),
        shown.1 == f.spec_value(s),
        (*final(t), sig) == f.spec_adjust(*old(t), w@.gain_table, dir as int),
{
}

/// A UI starts without a message; one that is posted is shown for three seconds, and a
/// key does what its model says.
pub proof fn ui_does_as_it_says(
    states: TuiStates,
    gains: Vec<i32>,
    fresh: Tui,
    t: &mut Tui,
    text: String,
    at: u64,
    u: &Tui,
    now: u64,
    said: Option<&str>,
    v: &mut Tui,
    k: KeyEvent,
    o: Outcome,
)
    requires
        call_ensures(Tui::new, (states, gains), fresh),
        call_ensures(Tui::set_status, (t, text, at), ()),
        u@ == final(t)@,
        call_ensures(Tui::status, (u, now), said),
        old(v)@.wf(),
        call_ensures(Tui::on_key, (v, k), o),
    ensures
        fresh@.states == states,
        fresh@.control.selected == 0,
        fresh@.control.gain_table == gains@,
        fresh@.status is None,
        final(t)@.states == old(t)@.states,
        final(t)@.control == old(t)@.control,
        now < at + 3_000 ==> said is Some && said->0@ == text@,
        now >= at + 3_000 ==> said is None,
        (final(v)@, o) == old(v)@.on_key(k),
{
}

/// The calls on the signal panel's state do what its model says; a new one has nothing on
/// it yet and is drawn in filled braille.
pub proof fn signal_state_does_as_it_says(
    bins: usize,
    history: usize,
    states: TuiStates,
    fresh: SignalView,
    a: &mut SignalView,
    spectrum: &[i32],
    b: &mut SignalView,
    c: &mut SignalView,
    style: SpectrumStyle,
    d: &mut SignalView,
    rows: u16,
    e: &mut SignalView,
    force: bool,
)
    requires
        call_ensures(SignalView::new, (bins, history, &states), fresh),
        call_ensures(SignalView::push, (a, spectrum), ()),
        call_ensures(SignalView::commit, (b,), ()),
        call_ensures(SignalView::cycle_style, (c,), style),
        call_ensures(SignalView::set_waterfall_height, (d, rows), ()),
        call_ensures(SignalView::gen_marked_labels, (e, &states, force), ()),
    ensures
        fresh@.bins == bins,
        fresh@.history == history,
        fresh@.rows.len() == 0,
        !fresh@.has_pending,
        fresh@.style is BrailleFill,
        fresh@.waterfall_height == 0,
        fresh@.axes.floor_db == states.floor_db,
        fresh@.axes.ceil_db == states.ceil_db,
        fresh@.axes.center_freq == states.center_freq,
        fresh@.axes.left == 2 * states.center_freq - states.sample_rate,
        fresh@.axes.right == 2 * states.center_freq + states.sample_rate,
        fresh@.axes.oldest == 0,
        final(a)@ == old(a)@.push(spectrum@),
        final(b)@ == old(b)@.commit(),
        style == old(c)@.style.spec_next(),
        final(c)@ == (SignalState { style, ..old(c)@ }),
        final(d)@ == (SignalState { waterfall_height: rows, ..old(d)@ }),
        final(e)@ == old(e)@.marked(states, force),
{
}

/// Each axis follows its own settings: the dB axis always, the frequency axis where it is
/// told to or the centre has moved, the time axis where it is told to, at two spectra a
/// row and 33 ms a spectrum.
pub proof fn each_axis_follows_its_own(
    a: &mut SignalView,
    b: &mut SignalView,
    c: &mut SignalView,
    s: TuiStates,
    force: bool,
)
    requires
        call_ensures(SignalView::gen_spec_yaxis_label, (a, &s, force), ()),
        call_ensures(SignalView::gen_water_xaxis_labels, (b, &s, force), ()),
        call_ensures(SignalView::gen_water_yaxis_label, (c, force), ()),
    ensures
        final(a)@.axes.floor_db == s.floor_db,
        final(a)@.axes.ceil_db == s.ceil_db,
        final(a)@.axes.center_freq == old(a)@.axes.center_freq,
        final(a)@.axes.left == old(a)@.axes.left,
        final(a)@.axes.right == old(a)@.axes.right,
        final(a)@.axes.oldest == old(a)@.axes.oldest,
        final(a)@ == (SignalState { axes: final(a)@.axes, ..old(a)@ }),
        force || s.center_freq != old(b)@.axes.center_freq ==> final(b)@.axes.center_freq
            == s.center_freq && final(b)@.axes.left == 2 * s.center_freq - s.sample_rate
            && final(b)@.axes.right == 2 * s.center_freq + s.sample_rate,
        !force && s.center_freq == old(b)@.axes.center_freq ==> final(b)@.axes == old(b)@.axes,
        final(b)@.axes.floor_db == old(b)@.axes.floor_db,
        final(b)@.axes.ceil_db == old(b)@.axes.ceil_db,
        final(b)@.axes.oldest == old(b)@.axes.oldest,
        final(b)@ == (SignalState { axes: final(b)@.axes, ..old(b)@ }),
        force ==> final(c)@.axes.oldest == -66 * old(c)@.waterfall_height,
        !force ==> final(c)@.axes.oldest == old(c)@.axes.oldest,
        final(c)@ == (SignalState { axes: final(c)@.axes, ..old(c)@ }),
        final(c)@.axes.floor_db == old(c)@.axes.floor_db,
        final(c)@.axes.ceil_db == old(c)@.axes.ceil_db,
        final(c)@.axes.center_freq == old(c)@.axes.center_freq,
        final(c)@.axes.left == old(c)@.axes.left,
        final(c)@.axes.right == old(c)@.axes.right,
{
}

} // verus!
