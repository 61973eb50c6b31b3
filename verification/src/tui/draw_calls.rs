//! What the calls that draw put on the screen.

use ratatui::buffer::Buffer as Screen;
use vstd::prelude::*;

use crate::fft::Fft;
use crate::log;
use crate::spmc::{Ring, RingConsumer};
use crate::tui::axes::{
    axis_labels, cursor, draw_mhz_axis, freq_col, freq_marks, frequency_axis, frequency_marks, pad,
    render_cursor, render_vaxis, texts, vaxis_marks, vertical_axis, widest,
};
use crate::tui::axis_laws::{is_longest, right_aligned};
use crate::tui::colors::{card, pane_border, pane_card, pane_chrome, pane_title};
use crate::tui::control_panel::{
    self, content_of, field_values, panel_strokes, render_row, row_strokes,
};
use crate::tui::control_view::{ControlView, Field, Reading, Topic};
use crate::tui::info_view::{self, info_laid_out, info_panel, measured, InfoReading, InfoView};
use crate::tui::log_view::{level_style, log_panel, spec_level_style, LogView};
use crate::tui::paint::{
    area_backs, blank, bounds, cells, lift, shows, side_by_side, Chrome, Color, Rect, Style,
};
use crate::tui::panel_laws::least;
use crate::tui::plot::{
    bars, braille, braille_dots, dot_lit, dots, draw_bars, draw_braille, draw_water_row,
    eighth_block, water_row,
};
use crate::tui::sampling::{block_levels, pushed, sample};
use crate::tui::screen::{divide, divides, fitted, screen_drawn, scrolled, ScreenLayout, Wording};
use crate::tui::signal_view::{
    axis_shown, frequencies_shown, lays_out, Scales, SignalLayout, SignalView, SpectrumStyle,
};
use crate::tui::status_bar::{bar_strokes, StatusBar};
use crate::tui::tui::{Status, Tui, TuiView};
use crate::tui::tui_states::{Health, TuiStates};

verus! {

/// Rectangles are cut off where their coordinates end, and say where they end; a border
/// leaves what is inside of it.
pub proof fn rectangles_end_where_they_say(
    x: u16,
    y: u16,
    width: u16,
    height: u16,
    r: Rect,
    right: u16,
    bottom: u16,
    empty: bool,
    inner: Rect,
)
    requires
        call_ensures(Rect::new, (x, y, width, height), r),
        call_ensures(Rect::right, (r,), right),
        call_ensures(Rect::bottom, (r,), bottom),
        call_ensures(Rect::is_empty, (r,), empty),
        call_ensures(Rect::inner, (r,), inner),
    ensures
        r.x == x,
        r.y == y,
        right == least(x + width, u16::MAX as int),
        bottom == least(y + height, u16::MAX as int),
        r.width == right - x,
        r.height == bottom - y,
        empty <==> r.width == 0 || r.height == 0,
        r.width >= 2 && r.height >= 2 ==> {
            &&& inner.x == x + 1
            &&& inner.y == y + 1
            &&& inner.width == r.width - 2
            &&& inner.height == r.height - 2
        },
        r.width < 2 ==> inner.width == 0,
        r.height < 2 ==> inner.height == 0,
{
}

/// A style starts with nothing set, and each colour is set on its own.
pub proof fn styles_are_set_one_by_one(s: Style, c: Color, t: Style, d: Color, u: Style)
    requires
        call_ensures(Style::new, (), s),
        call_ensures(Style::fg, (s, c), t),
        call_ensures(Style::bg, (t, d), u),
    ensures
        s == (Style { fg: None, bg: None, modifiers: 0 }),
        t == (Style { fg: Some(c), bg: None, modifiers: 0 }),
        u == (Style { fg: Some(c), bg: Some(d), modifiers: 0 }),
{
}

/// A sidebar panel stands on its card, and its border shows whether it has the focus.
pub proof fn panels_show_their_focus(focused: bool, b: Style, t: Style, g: Style, c: Chrome)
    requires
        call_ensures(pane_border, (focused,), b),
        call_ensures(pane_title, (), t),
        call_ensures(pane_card, (), g),
        call_ensures(pane_chrome, (focused,), c),
    ensures
        focused ==> b.fg == Some((0xCEu8, 0x7Cu8, 0x34u8)),
        !focused ==> b.fg == Some((0x1Du8, 0x40u8, 0x48u8)),
        t.fg == Some((0x68u8, 0x97u8, 0xA0u8)),
        g.bg == Some((0x11u8, 0x1Fu8, 0x23u8)),
        b.bg is None && t.bg is None && g.fg is None,
        b.modifiers == 0 && t.modifiers == 0 && g.modifiers == 0,
        c.border_style == b,
        c.title_style == t,
        c.style == g,
        card(focused) == c,
{
}

/// Marks, columns and labels of the axes are what their models say.
pub proof fn axes_are_measured_so(
    hz: u32,
    width: u16,
    center: u32,
    span: u32,
    x: Option<u16>,
    area: Rect,
    n: usize,
    text: String,
    w: usize,
    padded: String,
    labels: Vec<String>,
    m: usize,
    longest: usize,
    shown: usize,
)
    requires
        call_ensures(freq_col, (hz, width, center, span), x),
        call_ensures(vaxis_marks, (area,), n),
        call_ensures(pad, (&text, w), padded),
        call_ensures(widest, (&labels,), m),
        call_ensures(freq_marks, (width, longest), shown),
    ensures
        ({
            let halves = 2 * (hz - center) + span;
            &&& x is Some <==> width > 0 && 0 <= halves < 2 * span
            &&& x matches Some(c) ==> c < width && 2 * span * c <= halves * width < 2 * span * (c
                + 1)
        }),
        area.width < 2 || area.height < 2 ==> n == 0,
        area.width >= 2 && area.height >= 2 ==> n == least(area.height as int, 6),
        right_aligned(text@, w as int, padded@),
        is_longest(labels@, m as int),
        shown == frequency_marks(width as int, longest as int),
{
    let halves = 2 * (hz - center) + span;
    if width > 0 && 0 <= halves < 2 * span {
        vstd::arithmetic::div_mod::lemma_fundamental_div_mod(halves * width, 2 * span);
        let q = (halves * width) / (2 * span);
        assert(2 * span * (q + 1) == 2 * span * q + 2 * span) by (nonlinear_arith);
    }
    if text@.len() < w {
        assert(padded@.skip(w - text@.len()) =~= text@);
    } else {
        assert(padded@ =~= text@);
    }
    crate::tui::axis_laws::lemma_longest(labels@);
}

/// Axes and cursors are drawn as their models say.
pub proof fn axes_are_drawn_so(
    area: Rect,
    x: u16,
    color: Color,
    a: &mut Screen,
    b: &mut Screen,
    labels: Vec<String>,
    c: &mut Screen,
    d: &mut Screen,
    bg: Color,
)
    requires
        call_ensures(render_cursor, (area, x, color, a), ()),
        call_ensures(render_vaxis, (area, b, &labels), ()),
        call_ensures(draw_mhz_axis, (area, c, &labels), ()),
        call_ensures(lift, (d, area, bg), ()),
    ensures
        shows(*old(a), *final(a), cursor(area, x as int, color)),
        shows(*old(b), *final(b), vertical_axis(area, texts(labels@))),
        shows(*old(c), *final(c), frequency_axis(area, texts(labels@))),
        shows(
            *old(d),
            *final(d),
            area_backs(area, (area.spec_bottom() - area.y) as nat, bg),
        ),
{
}

/// The labels of an axis are those of its marks, each told where it is among how many.
pub proof fn labels_are_told_their_place<F: Fn(i64, i64, usize, usize) -> String>(
    label: F,
    from: i64,
    to: i64,
    marks: usize,
    labels: Vec<String>,
    j: usize,
)
    requires
        call_ensures(axis_labels::<F>, (&label, from, to, marks), labels),
        j < marks,
    ensures
        labels@.len() == marks,
        call_ensures(label, (from, to, j, marks), labels@[j as int]),
{
}

/// Plots are drawn as their models say. A filled bar lights the dots from its top down;
/// a traced one those between its top and that of the bar before.
pub proof fn plots_are_drawn_so(
    area: Rect,
    tops: Vec<usize>,
    sx: usize,
    y: usize,
    trace: bool,
    lit: bool,
    cx: usize,
    cy: usize,
    n: u32,
    part: usize,
    glyph: char,
    colors: Vec<Color>,
    a: &mut Screen,
    b: &mut Screen,
    c: &mut Screen,
    row: u16,
    lower: Vec<Color>,
)
    requires
        sx < tops@.len(),
        call_ensures(dot_lit, (&tops, sx, y, trace), lit),
        call_ensures(braille_dots, (&tops, cx, cy, trace), n),
        1 <= part <= 8,
        call_ensures(eighth_block, (part,), glyph),
        call_ensures(draw_braille, (area, a, &tops, &colors, trace), ()),
        call_ensures(draw_bars, (area, b, &tops, &colors), ()),
        call_ensures(draw_water_row, (area, c, row, &colors, &lower), ()),
    ensures
        !trace ==> (lit <==> tops@[sx as int] <= y),
        trace && sx == 0 ==> (lit <==> y == tops@[0]),
        trace && sx > 0 && tops@[sx - 1] <= tops@[sx as int] ==> (lit <==> tops@[sx - 1] <= y
            <= tops@[sx as int]),
        trace && sx > 0 && tops@[sx - 1] > tops@[sx as int] ==> (lit <==> tops@[sx as int] <= y
            <= tops@[sx - 1]),
        n == dots(tops@, cx as int, cy as int, trace),
        part == 1 ==> glyph == '\u{2581}',
        part == 2 ==> glyph == '\u{2582}',
        part == 3 ==> glyph == '\u{2583}',
        part == 4 ==> glyph == '\u{2584}',
        part == 5 ==> glyph == '\u{2585}',
        part == 6 ==> glyph == '\u{2586}',
        part == 7 ==> glyph == '\u{2587}',
        part == 8 ==> glyph == '\u{2588}',
        shows(*old(a), *final(a), braille(area, tops@, colors@, area.width as nat, trace)),
        shows(*old(b), *final(b), bars(area, tops@, colors@, area.width as nat)),
        shows(
            *old(c),
            *final(c),
            water_row(area, row as int, colors@, lower@, area.width as nat),
        ),
{
}

/// The pieces of the signal panel are drawn as their models say.
pub proof fn signal_pieces_are_drawn_so<
    D: Fn(i64, i64, usize, usize) -> String,
    H: Fn(i32, usize) -> usize,
    E: Fn(i32, usize) -> usize,
    K: Fn(i32) -> Color,
>(
    v: &SignalView,
    area: Rect,
    l: SignalLayout,
    label: D,
    reach: H,
    eighths: E,
    color: K,
    trace: bool,
    a: &mut Screen,
    b: &mut Screen,
    c: &mut Screen,
    d: &mut Screen,
    e: &mut Screen,
    f: &mut Screen,
    g: &mut Screen,
)
    requires
        call_ensures(SignalView::layout, (area,), l),
        call_ensures(
            SignalView::render_spectrum::<H, E, K>,
            (v, area, a, &reach, &eighths, &color),
            (),
        ),
        call_ensures(
            SignalView::render_spectrum_braille::<H, K>,
            (v, area, b, trace, &reach, &color),
            (),
        ),
        call_ensures(
            SignalView::render_spectrum_blocks::<E, K>,
            (v, area, c, &eighths, &color),
            (),
        ),
        call_ensures(SignalView::render_waterfall::<K>, (v, area, d, &color), ()),
        call_ensures(SignalView::render_spectrum_yaxis::<D>, (v, area, e, &label), ()),
        call_ensures(SignalView::render_water_yaxis::<D>, (v, area, f, &label), ()),
        call_ensures(SignalView::render_mhz_axis::<D>, (v, area, g, &label), ()),
    ensures
        lays_out(area, l),
        v@.spectrum_shown(area, reach, eighths, color, *old(a), *final(a)),
        v@.braille_shown(area, trace, reach, color, *old(b), *final(b)),
        v@.blocks_shown(area, eighths, color, *old(c), *final(c)),
        v@.waterfall_shown(area, color, *old(d), *final(d)),
        axis_shown(
            area,
            label,
            v@.axes.ceil_db as i64,
            v@.axes.floor_db as i64,
            *old(e),
            *final(e),
        ),
        axis_shown(area, label, 0, v@.axes.oldest, *old(f), *final(f)),
        frequencies_shown(area, label, v@.axes.left, v@.axes.right, *old(g), *final(g)),
{
}

/// The panels are drawn as their models say, and the log answers how far it could be
/// scrolled back.
pub proof fn panels_are_drawn_so<C: Fn(Reading) -> String, I: Fn(InfoReading) -> String>(
    area: Rect,
    view: &LogView,
    ring: &log::Ring,
    scroll: usize,
    focused: bool,
    scrolled: usize,
    a: &mut Screen,
    bar: &StatusBar,
    states: TuiStates,
    status: Option<&str>,
    b: &mut Screen,
    control: &ControlView,
    words: C,
    c: &mut Screen,
    info: &InfoView,
    others: I,
    d: &mut Screen,
    level: log::Level,
    style: Style,
)
    requires
        area.width > 2,
        area.height > 2,
        call_ensures(LogView::render, (view, area, a, ring, scroll, focused), scrolled),
        call_ensures(StatusBar::render, (bar, area, b, &states, status), ()),
        call_ensures(
            ControlView::render::<C>,
            (control, area, c, &states, &words, focused),
            (),
        ),
        call_ensures(InfoView::render::<I>, (info, area, d, &others), ()),
        call_ensures(level_style, (level,), style),
    ensures
        shows(
            *old(a),
            *final(a),
            log_panel(area, focused, ring@, ring.spec_start(), scroll as int),
        ),
        scrolled == least(
            scroll as int,
            ring@.len() - least(ring@.len() as int, area.height - 2),
        ),
        status matches Some(msg) ==> shows(
            *old(b),
            *final(b),
            bar_strokes(area, states.focus, Some(msg@)),
        ),
        status is None ==> shows(*old(b), *final(b), bar_strokes(area, states.focus, None)),
        exists|columns: Seq<Seq<Rect>>, values: Seq<String>|
            #[trigger] control_panel::worded(states, words, values) && control_panel::laid_out(
                area.spec_inner(),
                control_panel::lines_shown(area.spec_inner()),
                columns,
            ) && #[trigger] shows(
                *old(c),
                *final(c),
                panel_strokes(
                    area,
                    focused,
                    content_of(control@, states, values, focused),
                    columns,
                ),
            ),
        exists|rows: Seq<Rect>, columns: Seq<Seq<Rect>>, values: Seq<String>| #[trigger]
            info.worded(others, values) && #[trigger] info_laid_out(
                area.spec_inner(),
                rows,
                columns,
            ) && shows(
                *old(d),
                *final(d),
                info_panel(area, columns, info_view::texts(values)),
            ),
        style == spec_level_style(level),
{
}

/// A reading is put into words by its own text, and otherwise by the function; and a
/// level that was never written is none.
pub proof fn readings_are_put_into_words<C: Fn(Reading) -> String, I: Fn(InfoReading) -> String>(
    r: Reading,
    words: C,
    s: String,
    q: InfoReading,
    others: I,
    t: String,
    tenths: i32,
    m: Option<i32>,
    status: Status,
    u: String,
    states: TuiStates,
    values: Vec<String>,
    i: int,
)
    requires
        call_ensures(Reading::words::<C>, (r, &words), s),
        call_ensures(InfoReading::words::<I>, (q, &others), t),
        call_ensures(measured, (tenths,), m),
        call_ensures(Status::text::<C>, (status, &words), u),
        call_ensures(field_values::<C>, (&states, &words), values),
        0 <= i < 13,
    ensures
        r.spec_text() matches Some(own) ==> s@ == own,
        r.spec_text() is None ==> call_ensures(words, (r,), s),
        q.spec_text() matches Some(own) ==> t@ == own,
        q.spec_text() is None ==> call_ensures(others, (q,), t),
        tenths == i32::MIN ==> m is None,
        tenths != i32::MIN ==> m == Some(tenths),
        !(status is Field) ==> u@ == status.spec_text(Seq::empty()),
        status matches Status::Field(_, value) ==> exists|own: String| #[trigger]
            value.reads(words, own) && u@ == status.spec_text(own@),
        values@.len() == 13,
        Field::ALL@[i].spec_value(states).reads(words, values@[i]),
{
}

/// The whole screen is drawn as its model says.
pub proof fn screen_is_drawn_so<
    C: Fn(Reading) -> String,
    I: Fn(InfoReading) -> String,
    D: Fn(i64, i64, usize, usize) -> String,
    T: Fn(i64, i64, usize, usize) -> String,
    Q: Fn(i64, i64, usize, usize) -> String,
    H: Fn(i32, usize) -> usize,
    E: Fn(i32, usize) -> usize,
    K: Fn(i32) -> Color,
>(
    t: &mut Tui,
    area: Rect,
    l: ScreenLayout,
    buf: &mut Screen,
    signal: &mut SignalView,
    info: &InfoView,
    log: &log::Ring,
    wording: Wording<C, I>,
    scales: Scales<D, T, Q, H, E, K>,
    now: u64,
)
    requires
        call_ensures(divide, (area,), l),
        call_ensures(
            Tui::draw::<C, I, D, T, Q, H, E, K>,
            (t, area, buf, signal, info, log, &wording, &scales, now),
            (),
        ),
    ensures
        divides(area, l),
        exists|l: ScreenLayout, s: SignalLayout, step: Seq<Screen>|
            {
                &&& divides(area, l)
                &&& #[trigger] screen_drawn(
                    old(t)@,
                    old(signal)@,
                    *info,
                    *log,
                    wording,
                    scales,
                    now,
                    *old(buf),
                    *final(buf),
                    l,
                    s,
                    step,
                )
                &&& final(t)@ == (TuiView {
                    states: scrolled(old(t)@.states, l.log, log@.len() as int),
                    ..old(t)@
                })
                &&& final(signal)@ == fitted(old(signal)@, final(t)@.states, s.water.height)
            },
{
}

/// A frame of the display takes the newest block of the ring, if there is one, and
/// nothing else of it: its spectra are gathered, and become one row.
pub proof fn newest_block_is_displayed<
    S: Copy + Default,
    C: Copy,
    P: Fn(S, S) -> C,
    W: Fn(C, usize) -> C,
    F: Fn(C, usize, C) -> C,
    L: Fn(C) -> i32,
    const SLOTS: usize,
    const BLOCK: usize,
    const N: usize,
>(
    view: &mut SignalView,
    fft: &mut Fft<C, N>,
    c: &RingConsumer,
    ring: &mut Ring<S, SLOTS, BLOCK>,
    pair: P,
    window: W,
    combine: F,
    level: L,
)
    requires
        SLOTS >= 2,
        N >= 2,
        old(ring).wf(),
        c@ < old(ring)@.cursors.len(),
        call_ensures(
            sample::<S, C, P, W, F, L, SLOTS, BLOCK, N>,
            (view, fft, c, ring, &pair, &window, &combine, &level),
            (),
        ),
    ensures
        old(ring)@.head == 0 ==> final(view)@ == old(view)@,
        old(ring)@.head > 0 ==> exists|spectra: Seq<Seq<i32>>|
            {
                &&& spectra.len() == BLOCK / ((2 * N) as usize)
                &&& #[trigger] block_levels(
                    pair,
                    window,
                    combine,
                    level,
                    N as nat,
                    old(ring)@.published.last(),
                    spectra,
                )
                &&& final(view)@ == pushed(old(view)@, spectra).commit()
            },
        final(ring)@.cursors[c@ as int] == old(ring)@.head,
        final(ring)@.slots == old(ring)@.slots,
        final(ring)@.head == old(ring)@.head,
{
    let r = old(ring)@;
    if r.head > 0 {
        crate::spmc::laws::seek_latest_reads_the_newest(
            r,
            SLOTS as nat,
            BLOCK as nat,
            c@ as int,
        );
    }
}

/// A row of the Control panel, and the signal panel, are drawn as their models say, on a
/// screen that starts blank.
pub proof fn parts_are_drawn_so<
    C: Fn(Reading) -> String,
    D: Fn(i64, i64, usize, usize) -> String,
    T: Fn(i64, i64, usize, usize) -> String,
    Q: Fn(i64, i64, usize, usize) -> String,
    H: Fn(i32, usize) -> usize,
    E: Fn(i32, usize) -> usize,
    K: Fn(i32) -> Color,
>(
    a: &mut Screen,
    area: Rect,
    field: Field,
    focused: bool,
    states: TuiStates,
    words: C,
    v: &SignalView,
    b: &mut Screen,
    scales: Scales<D, T, Q, H, E, K>,
    c: &mut Screen,
    l: SignalLayout,
    fresh: Screen,
    p: (u16, u16),
)
    requires
        call_ensures(render_row::<C>, (a, area, field, focused, &states, &words), ()),
        call_ensures(
            SignalView::render::<D, T, Q, H, E, K>,
            (v, area, b, &states, &scales),
            (),
        ),
        call_ensures(
            SignalView::render_in::<D, T, Q, H, E, K>,
            (v, area, l, c, &states, &scales),
            (),
        ),
        call_ensures(blank, (area,), fresh),
        area.x <= p.0 < area.x + area.width <= u16::MAX,
        area.y <= p.1 < area.y + area.height <= u16::MAX,
    ensures
        exists|parts: Seq<Rect>, value: String|
            side_by_side(area, control_panel::columns(), parts) && #[trigger] field.spec_value(
                states,
            ).reads(words, value) && #[trigger] shows(
                *old(a),
                *final(a),
                row_strokes(area, parts, field, focused, field.spec_inert(states), value@),
            ),
        exists|l: SignalLayout, step: Seq<Screen>| #[trigger]
            v@.panel_drawn(area, states, scales, *old(b), *final(b), l, step),
        v@.panel_shown_in(area, states, scales, *old(c), *final(c), l),
        bounds(fresh) == area,
        cells(fresh).contains_key(p),
        cells(fresh)[p].symbol == seq![' '],
{
    reveal_strlit(" ");
    assert(" "@ =~= seq![' ']);
}

/// Texts, labels and readings are what their models say.
pub proof fn texts_are_as_they_say<C: Fn(Reading) -> String, I: Fn(InfoReading) -> String>(
    r: Reading,
    a: Option<String>,
    q: InfoReading,
    b: Option<String>,
    i: usize,
    name: &'static str,
    center_freq: u32,
    sample_rate: u32,
    audio_rate: u32,
    health: Health,
    v: InfoView,
    shown: InfoReading,
    others: I,
    values: Vec<String>,
    s: SpectrumStyle,
    next: SpectrumStyle,
    style: &'static str,
    t: Topic,
    words: C,
    line: String,
)
    requires
        call_ensures(Reading::text, (r,), a),
        call_ensures(InfoReading::text, (q,), b),
        i < 7,
        call_ensures(info_view::label, (i,), name),
        call_ensures(InfoView::new, (center_freq, sample_rate, audio_rate, health), v),
        call_ensures(InfoView::reading, (&v, i), shown),
        call_ensures(InfoView::values::<I>, (&v, &others), values),
        call_ensures(SpectrumStyle::next, (s,), next),
        call_ensures(SpectrumStyle::label, (s,), style),
        call_ensures(Topic::text::<C>, (t, &words), line),
    ensures
        a matches Some(own) ==> r.spec_text() == Some(own@),
        a is None <==> r.spec_text() is None,
        b matches Some(own) ==> q.spec_text() == Some(own@),
        b is None <==> q.spec_text() is None,
        name@ == info_view::info_label(i as int),
        v.center_freq == center_freq,
        v.sample_rate == sample_rate,
        v.audio_rate == audio_rate,
        v.health == health,
        shown == v.spec_reading(i as int),
        values@.len() == 7,
        shown.reads(others, values@[i as int]),
        next == s.spec_next(),
        style@ == s.spec_label(),
        t matches Topic::Bandwidth(hz) ==> exists|width: String| #[trigger]
            Reading::Hz(hz).reads(words, width) && line@ == t.spec_text(width@),
        !(t is Bandwidth) ==> line@ == t.spec_text(Seq::empty()),
{
}

} // verus!
