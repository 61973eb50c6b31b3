//! What stands on the axes of the signal panel, and how the screen is put together.

use ratatui::buffer::Buffer as Screen;
use vstd::prelude::*;

use crate::log;
use crate::tui::axes::{
    frequency_axis, frequency_marks, label_start, labelled, longest, marks_bound_the_axis, spacing,
    texts, tick, vertical_axis, vertical_marks,
};
use crate::tui::colors;
use crate::tui::control_view::Reading;
use crate::tui::info_view::{info_frame, info_laid_out, info_panel, InfoReading, InfoView};
use crate::tui::log_view::log_panel;
use crate::tui::paint::{cells, drawn, right_behind, shows, Color, Rect, Stroke, Style};
use crate::tui::screen::{
    control_shown, divides, fitted, info_shown, panels_stand_in_order, screen_drawn, scrolled,
    signal_gets_the_rest, status_at, ScreenLayout, Wording,
};
use crate::tui::signal_view::{
    axis_shown, frequencies_shown, laid_out, lays_out, marks, panes_share_the_height,
    plots_share_their_columns, Scales, SignalLayout, SignalState, SpectrumStyle,
};
use crate::tui::status_bar::bar_strokes;
use crate::tui::tui::TuiView;
use crate::tui::tui_states::{Pane, TuiStates};

verus! {

/// A number divided and rounded down.
pub open spec fn rounds_down(n: int, d: int, q: int) -> bool {
    d * q <= n < d * q + d
}

/// The text fills the width from the right, with blanks in front.
pub open spec fn right_aligned(text: Seq<char>, width: int, s: Seq<char>) -> bool {
    &&& text.len() >= width ==> s == text
    &&& text.len() < width ==> {
        &&& s.len() == width
        &&& s.skip(width - text.len()) == text
        &&& forall|i: int| 0 <= i < width - text.len() ==> s[i] == ' '
    }
}

/// What is drawn for mark `j` of a vertical axis with these labels: the label against
/// the tick, on the row so far down the axis.
pub open spec fn mark_drawn(
    area: Rect,
    labels: Seq<String>,
    j: int,
    stroke: Stroke,
    row: int,
) -> bool {
    &&& 0 <= row < area.height
    &&& rounds_down(j * (area.height - 1), labels.len() - 1, row)
    &&& stroke is Spans
    &&& stroke->Spans_area == (Rect {
        x: area.x,
        y: (area.y + row) as u16,
        width: area.width,
        height: 1,
    })
    &&& stroke->Spans_spans.len() == 2
    &&& right_aligned(labels[j]@, area.width - 1, stroke->Spans_spans[0].0)
    &&& stroke->Spans_spans[0].1 == (Style { fg: Some(colors::LABEL), bg: None, modifiers: 0 })
    &&& stroke->Spans_spans[1].0 == seq!['\u{2524}']
    &&& stroke->Spans_spans[1].1 == (Style { fg: Some(colors::BORDER), bg: None, modifiers: 0 })
}

/// A vertical axis has six marks, or one a row where there are fewer rows: the first at
/// the top with the value of that end, the last at the bottom, and the others evenly
/// between them.
pub proof fn vertical_axis_is_seen<F: Fn(i64, i64, usize, usize) -> String>(
    area: Rect,
    label: F,
    top: i64,
    bottom: i64,
    before: Screen,
    after: Screen,
) -> (r: (Seq<String>, Seq<Stroke>, Seq<int>))
    requires
        axis_shown(area, label, top, bottom, before, after),
        area.x + area.width <= u16::MAX,
        area.y + area.height <= u16::MAX,
    ensures
        ({
            let (labels, strokes, rows) = r;
            let n: usize = if area.width < 2 || area.height < 2 {
                0
            } else if area.height < 6 {
                area.height as usize
            } else {
                6
            };
            &&& labels.len() == n && strokes.len() == n && rows.len() == n
            &&& forall|j: usize|
                j < n ==> call_ensures(label, (top, bottom, j, n), #[trigger] labels[j as int])
            &&& cells(after) == drawn(cells(before), crate::tui::paint::bounds(before), strokes)
            &&& forall|j: int|
                0 <= j < n ==> mark_drawn(area, labels, j, #[trigger] strokes[j], rows[j])
            &&& n > 0 ==> rows[0] == 0 && rows[n - 1] == area.height - 1
        }),
{
    let labels = choose|labels: Seq<String>|
        {
            &&& #[trigger] labelled(label, top, bottom, vertical_marks(area) as usize, labels)
            &&& shows(before, after, vertical_axis(area, texts(labels)))
        };
    let n = labels.len() as int;
    let h = area.height as int;
    let strokes = vertical_axis(area, texts(labels));
    let rows = Seq::new(labels.len(), |j: int| tick(j, h, n));
    if n > 0 {
        marks_bound_the_axis(h, n);
    }
    reveal_strlit("\u{2524}");
    assert("\u{2524}"@ =~= seq!['\u{2524}']);
    assert forall|j: int| 0 <= j < n implies mark_drawn(
        area,
        labels,
        j,
        #[trigger] strokes[j],
        rows[j],
    ) by {
        assert(0 <= tick(j, h, n) <= h - 1) by {
            if j < n - 1 {
                assert(0 <= tick(j, h, n) < tick(j + 1, h, n));
            }
        }
        vstd::arithmetic::div_mod::lemma_fundamental_div_mod(j * (h - 1), n - 1);
        let text = strokes[j]->Spans_spans[0].0;
        assert(texts(labels)[j] == labels[j]@);
        let w = area.width - 1;
        if labels[j]@.len() < w {
            assert(text.skip(w - labels[j]@.len()) =~= labels[j]@);
        } else {
            assert(text =~= labels[j]@);
        }
    }
    (labels, strokes, rows)
}

/// `m` is the length of the longest of the texts.
pub open spec fn is_longest(labels: Seq<String>, m: int) -> bool {
    &&& forall|i: int| 0 <= i < labels.len() ==> (#[trigger] labels[i])@.len() <= m
    &&& labels.len() == 0 ==> m == 0
    &&& labels.len() > 0 ==> exists|i: int|
        0 <= i < labels.len() && (#[trigger] labels[i])@.len() == m
}

pub proof fn lemma_longest(labels: Seq<String>)
    ensures
        is_longest(labels, longest(labels)),
    decreases labels.len(),
{
    if labels.len() > 0 {
        let shorter = labels.drop_last();
        lemma_longest(shorter);
        let n = labels.len() as int;
        assert forall|i: int| 0 <= i < n implies (#[trigger] labels[i])@.len() <= longest(
            labels,
        ) by {
            if i < n - 1 {
                assert(shorter[i] == labels[i]);
            }
        }
        if longest(shorter) < labels.last()@.len() || n == 1 {
            assert(labels[n - 1]@.len() == longest(labels));
        } else {
            let i = choose|i: int|
                0 <= i < shorter.len() && (#[trigger] shorter[i])@.len() == longest(shorter);
            assert(labels[i]@.len() == longest(labels));
        }
    }
}

/// `n` is how many labels have room on so many columns where each takes one and a half
/// times the longest and a blank: none where not even two have, six at most.
pub open spec fn as_many_as_fit(width: int, m: int, n: int) -> bool {
    let each = m + m / 2 + 1;
    &&& n == 0 || 2 <= n <= 6
    &&& n > 0 ==> 0 < m <= width && (n - 1) * each <= width - 1
    &&& 0 < n < 6 ==> n * each > width - 1
    &&& n == 0 ==> m <= 0 || m > width || each > width - 1
}

proof fn lemma_as_many(width: int, m: int)
    requires
        width > 0,
        m >= 0,
    ensures
        as_many_as_fit(width, m, frequency_marks(width, m)),
{
    if 0 < m <= width {
        let each = spacing(m);
        let e = width - 1;
        let q = e / each;
        let n = frequency_marks(width, m);
        vstd::arithmetic::div_mod::lemma_fundamental_div_mod(e, each);
        vstd::arithmetic::div_mod::lemma_div_pos_is_pos(e, each);
        assert(n > 0 ==> (n - 1) * each <= e) by (nonlinear_arith)
            requires
                e == each * q + e % each,
                e % each >= 0,
                n > 0 ==> n - 1 <= q,
                each > 0,
        ;
        assert(0 < n < 6 ==> n * each > e) by (nonlinear_arith)
            requires
                e == each * q + e % each,
                e % each < each,
                0 < n < 6 ==> n == q + 1,
                each > 0,
        ;
        if n == 0 {
            assert(q == 0);
            assert(each > e) by (nonlinear_arith)
                requires
                    e == each * q + e % each,
                    e % each < each,
                    q == 0,
            ;
        }
    }
}

/// What is drawn for mark `j` of the frequency axis: the label on the axis' row, as near
/// to being centred on the column so far along it as the ends of the axis allow.
pub open spec fn label_drawn(
    area: Rect,
    labels: Seq<String>,
    j: int,
    stroke: Stroke,
    at: int,
    start: int,
) -> bool {
    let len = labels[j]@.len() as int;
    &&& rounds_down(j * (area.width - 1), labels.len() - 1, at)
    &&& len >= area.width ==> start == 0
    &&& len < area.width ==> {
        &&& 0 <= start <= area.width - len
        &&& start < at - len / 2 ==> start == area.width - len
        &&& start > at - len / 2 ==> start == 0
    }
    &&& stroke == (Stroke::Line {
        text: labels[j]@,
        style: Style { fg: Some(colors::LABEL), bg: None, modifiers: 0 },
        area: Rect {
            x: (area.x + start) as u16,
            y: area.y,
            width: (if len < area.width {
                len
            } else {
                area.width as int
            }) as u16,
            height: 1,
        },
    })
}

/// The frequency axis shows as many labels as have room: the first with the value of the
/// left end, the last with that of the right, and the others evenly between them.
pub proof fn frequency_axis_is_seen<F: Fn(i64, i64, usize, usize) -> String>(
    area: Rect,
    label: F,
    left: i64,
    right: i64,
    before: Screen,
    after: Screen,
) -> (r: (Seq<String>, Seq<String>, Seq<Stroke>, Seq<(int, int)>, int))
    requires
        frequencies_shown(area, label, left, right, before, after),
        area.width > 0,
        area.height > 0,
        area.x + area.width <= u16::MAX,
        area.y < u16::MAX,
    ensures
        ({
            let (six, labels, strokes, places, m) = r;
            let n = labels.len() as int;
            &&& six.len() == 6
            &&& forall|j: usize|
                j < 6 ==> call_ensures(label, (left, right, j, 6usize), #[trigger] six[j as int])
            &&& is_longest(six, m)
            &&& as_many_as_fit(area.width as int, m, n)
            &&& forall|j: usize|
                j < n ==> call_ensures(
                    label,
                    (left, right, j, n as usize),
                    #[trigger] labels[j as int],
                )
            &&& cells(after) == drawn(cells(before), crate::tui::paint::bounds(before), strokes)
            &&& strokes.len() == n
            &&& forall|j: int|
                0 <= j < n ==> label_drawn(
                    area,
                    labels,
                    j,
                    #[trigger] strokes[j],
                    places[j].0,
                    places[j].1,
                )
        }),
{
    let (six, labels) = choose|six: Seq<String>, labels: Seq<String>|
        {
            &&& #[trigger] labelled(label, left, right, 6, six)
            &&& #[trigger] labelled(
                label,
                left,
                right,
                frequency_marks(area.width as int, longest(six)) as usize,
                labels,
            )
            &&& shows(before, after, frequency_axis(area, texts(labels)))
        };
    let m = longest(six);
    let w = area.width as int;
    lemma_longest(six);
    lemma_as_many(w, m);
    let n = labels.len() as int;
    let strokes = frequency_axis(area, texts(labels));
    let places = Seq::new(
        labels.len(),
        |j: int| (tick(j, w, n), label_start(j, w, n, labels[j]@.len() as int)),
    );
    assert forall|j: int| 0 <= j < n implies label_drawn(
        area,
        labels,
        j,
        #[trigger] strokes[j],
        places[j].0,
        places[j].1,
    ) by {
        assert(texts(labels)[j] == labels[j]@);
        vstd::arithmetic::div_mod::lemma_fundamental_div_mod(j * (w - 1), n - 1);
    }
    (six, labels, strokes, places, m)
}

/// The style decides how the newest row is plotted; where there is no room, no bin or no
/// row yet, nothing is.
pub proof fn style_decides_the_plot<
    H: Fn(i32, usize) -> usize,
    E: Fn(i32, usize) -> usize,
    K: Fn(i32) -> Color,
>(
    s: SignalState,
    area: Rect,
    reach: H,
    eighths: E,
    color: K,
    before: Screen,
    after: Screen,
)
    requires
        s.spectrum_shown(area, reach, eighths, color, before, after),
    ensures
        s.style is Blocks ==> s.blocks_shown(area, eighths, color, before, after),
        s.style is BrailleFill ==> s.braille_shown(area, false, reach, color, before, after),
        s.style is BrailleTrace ==> s.braille_shown(area, true, reach, color, before, after),
        area.width == 0 || area.height == 0 || s.bins == 0 || s.rows.len() == 0 ==> cells(after)
            == cells(before),
{
}

/// An empty waterfall pane stays as it was.
pub proof fn empty_pane_stays<K: Fn(i32) -> Color>(
    s: SignalState,
    area: Rect,
    color: K,
    before: Screen,
    after: Screen,
)
    requires
        s.waterfall_shown(area, color, before, after),
        area.width == 0 || area.height == 0 || s.bins == 0,
    ensures
        cells(after) == cells(before),
{
}

/// Blocks, filled braille and traced braille follow one another.
pub proof fn styles_are_in_their_order()
    ensures
        SpectrumStyle::Blocks.spec_next() == SpectrumStyle::BrailleFill,
        SpectrumStyle::BrailleFill.spec_next() == SpectrumStyle::BrailleTrace,
        SpectrumStyle::BrailleTrace.spec_next() == SpectrumStyle::Blocks,
        SpectrumStyle::Blocks.spec_label() == "blocks"@,
        SpectrumStyle::BrailleFill.spec_label() == "braille fill"@,
        SpectrumStyle::BrailleTrace.spec_label() == "braille trace"@,
{
}

/// The signal panel: in one frame, the spectrum beside an axis from the ceiling down to
/// the floor; the waterfall beside an axis from now down to the oldest row; between
/// them the frequencies from the left end to the right; and the two cursors on top,
/// the centre's last.
pub proof fn signal_panel_is_seen<
    D: Fn(i64, i64, usize, usize) -> String,
    T: Fn(i64, i64, usize, usize) -> String,
    Q: Fn(i64, i64, usize, usize) -> String,
    H: Fn(i32, usize) -> usize,
    E: Fn(i32, usize) -> usize,
    K: Fn(i32) -> Color,
>(
    s: SignalState,
    area: Rect,
    states: TuiStates,
    scales: Scales<D, T, Q, H, E, K>,
    before: Screen,
    after: Screen,
    l: SignalLayout,
) -> (step: Seq<Screen>)
    requires
        s.panel_shown_in(area, states, scales, before, after, l),
    ensures
        lays_out(area, l),
        shows(
            before,
            step[0],
            seq![
                Stroke::Block {
                    title: "Spectrum \u{b7} MHz"@,
                    chrome: crate::tui::paint::Chrome {
                        style: Style { fg: None, bg: Some(colors::BG_WELL), modifiers: 0 },
                        title_style: Style { fg: Some(colors::TITLE), bg: None, modifiers: 0 },
                        border_style: Style { fg: Some(colors::BORDER), bg: None, modifiers: 0 },
                    },
                    area,
                },
            ],
        ),
        axis_shown(
            l.spec_axis,
            scales.db_label,
            s.axes.ceil_db as i64,
            s.axes.floor_db as i64,
            step[0],
            step[1],
        ),
        s.spectrum_shown(l.spec, scales.reach, scales.eighths, scales.color, step[1], step[2]),
        frequencies_shown(
            l.freq_axis,
            scales.freq_label,
            s.axes.left,
            s.axes.right,
            step[2],
            step[3],
        ),
        axis_shown(l.water_axis, scales.time_label, 0, s.axes.oldest, step[3], step[4]),
        s.waterfall_shown(l.water, scales.color, step[4], step[5]),
        shows(
            step[5],
            after,
            marks(l, states.tuned_freq, colors::ORANGE_BASE, states) + marks(
                l,
                states.center_freq,
                colors::CYAN_GLOW,
                states,
            ),
        ),
{
    choose|step: Seq<Screen>| #[trigger]
        s.panel_drawn(area, states, scales, before, after, l, step)
}

/// The whole screen: each panel in its place with what it is about, the focused one
/// framed as such, and the signal with its time axis as long as its waterfall is high.
pub proof fn screen_is_seen<
    C: Fn(Reading) -> String,
    I: Fn(InfoReading) -> String,
    D: Fn(i64, i64, usize, usize) -> String,
    T: Fn(i64, i64, usize, usize) -> String,
    Q: Fn(i64, i64, usize, usize) -> String,
    H: Fn(i32, usize) -> usize,
    E: Fn(i32, usize) -> usize,
    K: Fn(i32) -> Color,
>(
    t: TuiView,
    v: SignalState,
    info: InfoView,
    log: log::Ring,
    wording: Wording<C, I>,
    scales: Scales<D, T, Q, H, E, K>,
    now: u64,
    before: Screen,
    after: Screen,
    l: ScreenLayout,
    s: SignalLayout,
    step: Seq<Screen>,
)
    requires
        screen_drawn(t, v, info, log, wording, scales, now, before, after, l, s, step),
    ensures
        control_shown(l.control, t, wording.control, before, step[0]),
        info_shown(l.info, info, wording.info, step[0], step[1]),
        shows(
            step[1],
            step[2],
            log_panel(
                l.log,
                t.states.focus is Log,
                log@,
                log.spec_start(),
                t.states.log_scroll as int,
            ),
        ),
        ({
            let states = scrolled(t.states, l.log, log@.len() as int);
            let shown = fitted(v, states, s.water.height);
            &&& shown.panel_shown_in(l.signal, states, scales, step[2], step[3], s)
            &&& shown.rows == v.rows
            &&& shown.style == v.style
            &&& shown.bins == v.bins
            &&& shown.waterfall_height == s.water.height
            &&& shown.axes.floor_db == t.states.floor_db
            &&& shown.axes.ceil_db == t.states.ceil_db
        }),
        shows(step[3], after, bar_strokes(l.status, t.states.focus, status_at(t, now))),
{
}

/// What the Control panel shows is what the UI holds: the cursor where it stands, with
/// the frame of the focus exactly where Control has it.
pub proof fn control_panel_is_seen<C: Fn(Reading) -> String>(
    area: Rect,
    t: TuiView,
    wording: C,
    before: Screen,
    after: Screen,
) -> (r: (Seq<Seq<Rect>>, Seq<String>))
    requires
        control_shown(area, t, wording, before, after),
    ensures
        crate::tui::control_panel::worded(t.states, wording, r.1),
        shows(
            before,
            after,
            crate::tui::control_panel::panel_strokes(
                area,
                t.states.focus is Control,
                crate::tui::control_panel::Content {
                    states: t.states,
                    values: Seq::new(r.1.len(), |i: int| r.1[i]@),
                    cursor: if t.states.focus is Control {
                        Some(t.control.selected)
                    } else {
                        None
                    },
                },
                r.0,
            ),
        ),
{
    let focused = t.states.focus == Pane::Control;
    let (columns, values) = choose|columns: Seq<Seq<Rect>>, values: Seq<String>|
        #[trigger] crate::tui::control_panel::worded(t.states, wording, values)
            && crate::tui::control_panel::laid_out(
            area.spec_inner(),
            crate::tui::control_panel::lines_shown(area.spec_inner()),
            columns,
        ) && #[trigger] shows(
            before,
            after,
            crate::tui::control_panel::panel_strokes(
                area,
                focused,
                crate::tui::control_panel::content_of(t.control, t.states, values, focused),
                columns,
            ),
        );
    assert(values.map_values(|v: String| v@) =~= Seq::new(values.len(), |i: int| values[i]@));
    (columns, values)
}

/// What the Info panel shows is what the radio reports, row by row; one without room
/// inside its frame shows the frame alone.
pub proof fn info_panel_is_seen<I: Fn(InfoReading) -> String>(
    area: Rect,
    info: InfoView,
    wording: I,
    before: Screen,
    after: Screen,
) -> (r: (Seq<Rect>, Seq<Seq<Rect>>, Seq<String>))
    requires
        info_shown(area, info, wording, before, after),
    ensures
        area.width <= 2 || area.height <= 2 ==> shows(before, after, seq![info_frame(area)]),
        area.width > 2 && area.height > 2 ==> {
            &&& info_laid_out(area.spec_inner(), r.0, r.1)
            &&& r.2.len() == 7
            &&& forall|i: int|
                0 <= i < 7 ==> info.spec_reading(i).reads(wording, #[trigger] r.2[i])
            &&& shows(
                before,
                after,
                info_panel(area, r.1, Seq::new(r.2.len(), |i: int| r.2[i]@)),
            )
        },
{
    if area.width > 2 && area.height > 2 {
        let (rows, columns, values) = choose|
            rows: Seq<Rect>,
            columns: Seq<Seq<Rect>>,
            values: Seq<String>,
        | #[trigger]
            info.worded(wording, values) && #[trigger] info_laid_out(
                area.spec_inner(),
                rows,
                columns,
            ) && shows(
                before,
                after,
                info_panel(area, columns, crate::tui::info_view::texts(values)),
            );
        assert(crate::tui::info_view::texts(values) =~= Seq::new(
            values.len(),
            |i: int| values[i]@,
        ));
        (rows, columns, values)
    } else {
        (Seq::empty(), Seq::empty(), Seq::empty())
    }
}

/// A screen with room for everything: a column of 30 on the left with 18 rows of Control,
/// 9 of Info and the rest of log, the signal beside it, and one row of status below.
pub proof fn screen_is_divided_so(area: Rect, l: ScreenLayout)
    requires
        divides(area, l),
        area.x + area.width <= u16::MAX,
        area.y + area.height <= u16::MAX,
        area.width >= 30,
        area.height >= 28,
    ensures
        l.control == (Rect { x: area.x, y: area.y, width: 30, height: 18 }),
        l.info == (Rect { x: area.x, y: (area.y + 18) as u16, width: 30, height: 9 }),
        l.log == (Rect {
            x: area.x,
            y: (area.y + 27) as u16,
            width: 30,
            height: (area.height - 28) as u16,
        }),
        l.signal == (Rect {
            x: (area.x + 30) as u16,
            y: area.y,
            width: (area.width - 30) as u16,
            height: (area.height - 1) as u16,
        }),
        l.status == (Rect {
            x: area.x,
            y: (area.y + area.height - 1) as u16,
            width: area.width,
            height: 1,
        }),
{
    panels_stand_in_order(area, l);
    signal_gets_the_rest(area, l);
}

/// Inside the frame of the signal panel, each plot stands right of its axis, which is five
/// columns wide and as high as the plot; the spectrum has three tenths of the rows, the
/// frequencies one row below it, and the waterfall the rest.
pub proof fn signal_panel_is_divided_so(area: Rect, l: SignalLayout)
    requires
        lays_out(area, l),
        area.x + area.width <= u16::MAX,
        area.y + area.height <= u16::MAX,
        area.width >= 7,
        area.height >= 4,
    ensures
        ({
            let rows = (30 * (area.height - 2) + 50) / 100;
            let w = (area.width - 7) as u16;
            &&& l.spec_axis == (Rect {
                x: (area.x + 1) as u16,
                y: (area.y + 1) as u16,
                width: 5,
                height: rows as u16,
            })
            &&& l.spec == (Rect {
                x: (area.x + 6) as u16,
                y: (area.y + 1) as u16,
                width: w,
                height: rows as u16,
            })
            &&& l.freq_axis == (Rect {
                x: (area.x + 6) as u16,
                y: (area.y + 1 + rows) as u16,
                width: w,
                height: 1,
            })
            &&& l.water_axis == (Rect {
                x: (area.x + 1) as u16,
                y: (area.y + 2 + rows) as u16,
                width: 5,
                height: (area.height - 3 - rows) as u16,
            })
            &&& l.water == (Rect {
                x: (area.x + 6) as u16,
                y: (area.y + 2 + rows) as u16,
                width: w,
                height: (area.height - 3 - rows) as u16,
            })
        }),
{
    plots_share_their_columns(area, l);
    panes_share_the_height(area, l);
    let (rows, blank) = choose|rows: Seq<Rect>, blank: Rect| #[trigger]
        laid_out(area, l, rows, blank);
    let a = seq![l.spec_axis, l.spec];
    let b = seq![blank, l.freq_axis];
    let c = seq![l.water_axis, l.water];
    assert(a[0] == l.spec_axis && a[1] == l.spec);
    assert(b[0] == blank && b[1] == l.freq_axis);
    assert(c[0] == l.water_axis && c[1] == l.water);
    assert(rows[0].x == area.x + 1 && rows[1].x == area.x + 1 && rows[2].x == area.x + 1);
    assert(right_behind(a[0], a[1]));
    assert(right_behind(c[0], c[1]));
}

} // verus!
