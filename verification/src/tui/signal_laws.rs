//! What the signal panel makes of the spectra it is given.

use ratatui::buffer::Buffer as Screen;
use vstd::prelude::*;

use crate::tui::axes::{cursor, cursor_marks_its_column, frequency_column, lemma_column_on_plot};
use crate::tui::colors;
use crate::tui::on_screen::{
    bars_stand_on_the_bottom, belongs, braille_dots_are_where_they_belong, has_dot,
    lines_run_down_the_screen,
};
use crate::tui::paint::{
    bounds, cells, color_code, drawn, lemma_drawn_add, CellView, Color, Rect, Stroke,
};
use crate::tui::plot::{bars, braille, water};
use crate::tui::signal_view::{
    blocks_scaled, braille_scaled, end_bin, first_bin, folded, folds, lemma_column_bins,
    lemma_peak, marks, tips, SignalLayout, SignalState,
};
use crate::tui::tui_states::TuiStates;

verus! {

/// A frame drops at most the oldest line: with something pending, what was pending
/// is the newest line, every other line is one further down, and only what no
/// longer fits the history is gone. With nothing pending, nothing changes.
pub proof fn waterfall_scrolls_by_one(s: SignalState)
    requires
        s.wf(),
        s.history > 0,
        s.rows.len() <= s.history,
    ensures
        ({
            let t = s.commit();
            &&& !s.has_pending ==> t == s
            &&& s.has_pending ==> {
                &&& t.rows.len() == if s.rows.len() < s.history {
                    s.rows.len() + 1
                } else {
                    s.history
                }
                &&& t.rows[0] == s.pending
                &&& forall|i: int|
                    0 <= i && i + 1 < t.rows.len() ==> #[trigger] t.rows[i + 1] == s.rows[i]
                &&& !t.has_pending
                &&& t.pending.len() == s.bins
                &&& forall|i: int| 0 <= i < s.bins ==> #[trigger] t.pending[i] == i32::MIN
            }
            &&& t.bins == s.bins && t.history == s.history && t.style == s.style && t.axes
                == s.axes && t.waterfall_height == s.waterfall_height
        }),
{
}

/// The state after a series of spectra, each followed by a frame.
pub open spec fn framed(s: SignalState, spectra: Seq<Seq<i32>>) -> SignalState
    decreases spectra.len(),
{
    if spectra.len() == 0 {
        s
    } else {
        framed(s, spectra.drop_last()).push(spectra.last()).commit()
    }
}

/// Line `i` of the waterfall is the spectrum of `i` frames ago, for as long as the
/// history goes back: from an empty display on, after any number of frames with
/// one spectrum each.
pub proof fn lines_are_the_newest_spectra(s: SignalState, spectra: Seq<Seq<i32>>)
    requires
        s.wf(),
        s.history > 0,
        s.rows.len() == 0,
        !s.has_pending,
        forall|i: int| 0 <= i < s.bins ==> s.pending[i] == i32::MIN,
        forall|k: int| 0 <= k < spectra.len() ==> (#[trigger] spectra[k]).len() == s.bins,
    ensures
        ({
            let t = framed(s, spectra);
            &&& t.wf()
            &&& t.bins == s.bins && t.history == s.history && !t.has_pending
            &&& forall|i: int| 0 <= i < s.bins ==> #[trigger] t.pending[i] == i32::MIN
            &&& t.rows.len() == if spectra.len() < s.history {
                spectra.len()
            } else {
                s.history
            }
            &&& forall|i: int|
                0 <= i < t.rows.len() ==> #[trigger] t.rows[i] == spectra[spectra.len() - 1 - i]
        }),
    decreases spectra.len(),
{
    if spectra.len() > 0 {
        let earlier = spectra.drop_last();
        lines_are_the_newest_spectra(s, earlier);
        let before = framed(s, earlier);
        let pushed = before.push(spectra.last());
        assert(pushed.pending =~= spectra.last());
        waterfall_scrolls_by_one(pushed);
        let t = pushed.commit();
        assert forall|i: int| 0 <= i < t.rows.len() implies #[trigger] t.rows[i] == spectra[
            spectra.len() - 1 - i
        ] by {
            if i > 0 {
                assert(t.rows[(i - 1) + 1] == before.rows[i - 1]);
            }
        }
    }
}

/// A bin that is waiting for the next line holds the larger of what it held and
/// what comes in; a bin that nothing comes in for is left alone.
pub proof fn the_larger_is_held(s: SignalState, a: Seq<i32>, i: int)
    requires
        s.wf(),
        0 <= i < s.bins,
    ensures
        ({
            let t = s.push(a);
            &&& t.has_pending
            &&& t.pending.len() == s.bins
            &&& i >= a.len() ==> t.pending[i] == s.pending[i]
            &&& i < a.len() ==> t.pending[i] >= s.pending[i] && t.pending[i] >= a[i] && (
            t.pending[i] == s.pending[i] || t.pending[i] == a[i])
            &&& t.rows == s.rows && t.bins == s.bins && t.history == s.history && t.style
                == s.style && t.axes == s.axes && t.waterfall_height == s.waterfall_height
        }),
{
}

/// The ends of the axes: the colour range, half the sample rate on either side of
/// the centre, counted in halves of a hertz, and, from the top down, two frames of
/// 33 ms for every row. The frequency axis is made anew when the centre moves, the
/// time axis when it is asked for.
pub proof fn axes_end_where_the_data_does(s: SignalState, states: TuiStates, force: bool)
    ensures
        ({
            let a = s.axes;
            let b = s.marked(states, force).axes;
            &&& b.floor_db == states.floor_db && b.ceil_db == states.ceil_db
            &&& force || states.center_freq != a.center_freq ==> {
                &&& b.center_freq == states.center_freq
                &&& b.left + b.right == 4 * states.center_freq
                &&& b.right - b.left == 2 * states.sample_rate
            }
            &&& !force && states.center_freq == a.center_freq ==> b.left == a.left && b.right
                == a.right && b.center_freq == a.center_freq
            &&& force ==> b.oldest == -(66 * s.waterfall_height)
            &&& !force ==> b.oldest == a.oldest
            &&& s.marked(states, force) == (SignalState { axes: b, ..s })
        }),
{
}

/// The largest of the bins from `lo` up to `hi`.
pub open spec fn peak_of(row: Seq<i32>, lo: int, hi: int, v: i32) -> bool {
    &&& exists|b: int| lo <= b < hi && #[trigger] row[b] == v
    &&& forall|b: int| lo <= b < hi ==> #[trigger] row[b] <= v
}

/// The largest of the bins that fall on column `x` of `width`: the columns share
/// the bins evenly, and where there are more columns than bins, a bin is shown more
/// than once.
pub open spec fn column_peak(row: Seq<i32>, x: int, width: int, v: i32) -> bool {
    let n = row.len() as int;
    let lo = x * n / width;
    let hi = (x + 1) * n / width;
    peak_of(
        row,
        lo,
        if hi <= lo {
            lo + 1
        } else {
            hi
        },
        v,
    )
}

/// A column shows the peak of its bins.
pub proof fn columns_show_their_peaks(row: Seq<i32>, x: int, width: int)
    requires
        row.len() > 0,
        0 <= x < width,
    ensures
        column_peak(row, x, width, folded(row, x, width)),
{
    let n = row.len() as int;
    lemma_column_bins(n, x, width);
    let lo = first_bin(n, x, width);
    let hi = end_bin(n, x, width);
    let part = row.subrange(lo, hi);
    lemma_peak(part);
    let v = folded(row, x, width);
    let i = choose|i: int| 0 <= i < part.len() && part[i] == v;
    assert(row[lo + i] == v);
    assert forall|b: int| lo <= b < hi implies #[trigger] row[b] <= v by {
        assert(part[b - lo] == row[b]);
    }
}

/// How high a bar stands, given how much of `rows` its magnitude reaches: at least
/// one, so that a quiet band does not look like a dead one, and no more than there
/// are.
pub open spec fn bar_height(reached: int, rows: int) -> int {
    if reached < 1 {
        1
    } else if reached > rows {
        rows
    } else {
        reached
    }
}

/// So many of `steps` are what the peak of column `x` of `width` reaches.
pub open spec fn reaches<H: Fn(i32, usize) -> usize>(
    row: Seq<i32>,
    x: int,
    width: int,
    reach: H,
    steps: int,
    n: usize,
) -> bool {
    exists|v: i32| #[trigger]
        column_peak(row, x, width, v) && call_ensures(reach, (v, steps as usize), n)
}

/// The colour is that of the peak of column `x` of `width`.
pub open spec fn shaded<K: Fn(i32) -> Color>(
    row: Seq<i32>,
    x: int,
    width: int,
    color: K,
    c: Color,
) -> bool {
    exists|v: i32| #[trigger] column_peak(row, x, width, v) && call_ensures(color, (v,), c)
}

/// The colour is that of the larger of the peaks of columns `x` and `x + 1` of
/// `width`.
pub open spec fn shaded_by_two<K: Fn(i32) -> Color>(
    row: Seq<i32>,
    x: int,
    width: int,
    color: K,
    c: Color,
) -> bool {
    exists|v: i32, w: i32|
        {
            &&& #[trigger] column_peak(row, x, width, v)
            &&& #[trigger] column_peak(row, x + 1, width, w)
            &&& call_ensures(
                color,
                (if v < w {
                    w
                } else {
                    v
                },),
                c,
            )
        }
}

/// The heights and colours are those of a row in braille: two sub-columns a column
/// and four sub-rows a row, each column in the colour of the larger of its two
/// peaks.
pub open spec fn measured_in_dots<H: Fn(i32, usize) -> usize, K: Fn(i32) -> Color>(
    row: Seq<i32>,
    area: Rect,
    reach: H,
    color: K,
    filled: Seq<usize>,
    shades: Seq<Color>,
) -> bool {
    &&& filled.len() == 2 * area.width
    &&& shades.len() == area.width
    &&& forall|sx: int|
        0 <= sx < filled.len() ==> reaches(
            row,
            sx,
            2 * area.width,
            reach,
            4 * area.height,
            #[trigger] filled[sx],
        )
    &&& forall|cx: int|
        0 <= cx < shades.len() ==> shaded_by_two(
            row,
            2 * cx,
            2 * area.width,
            color,
            #[trigger] shades[cx],
        )
}

/// The cell shows what is due of a braille plot whose sub-columns reach up to these
/// tips.
pub open spec fn braille_due(
    before: CellView,
    after: CellView,
    area: Rect,
    tops: Seq<usize>,
    shades: Seq<Color>,
    trace: bool,
    p: (u16, u16),
) -> bool {
    let cx = p.0 - area.x;
    let cy = p.1 - area.y;
    let inside = 0 <= cx < area.width && 0 <= cy < area.height;
    let blank = forall|dy: int, dx: int|
        0 <= dy < 4 && 0 <= dx < 2 ==> !#[trigger] belongs(
            tops,
            2 * cx + dx,
            4 * cy + dy,
            trace,
        );
    &&& !inside || blank ==> after == before
    &&& inside && !blank ==> {
        &&& forall|dy: int, dx: int|
            0 <= dy < 4 && 0 <= dx < 2 ==> (#[trigger] has_dot(after, dy, dx) <==> belongs(
                tops,
                2 * cx + dx,
                4 * cy + dy,
                trace,
            ))
        &&& after.fg == color_code(shades[cx])
        &&& after.bg == before.bg
        &&& after.modifiers == before.modifiers
    }
}

/// The spectrum in braille: of every sub-column as many dots as its peak reaches,
/// counted up from the bottom of the plot; or, of a trace, the outline of that.
pub proof fn braille_spectrum_is_seen<H: Fn(i32, usize) -> usize, K: Fn(i32) -> Color>(
    s: SignalState,
    area: Rect,
    trace: bool,
    reach: H,
    color: K,
    before: Screen,
    after: Screen,
) -> (r: (Seq<usize>, Seq<Color>, Seq<usize>))
    requires
        s.wf(),
        s.bins > 0,
        s.rows.len() > 0,
        area.width > 0,
        area.height > 0,
        area.x + area.width <= u16::MAX,
        area.y + area.height <= u16::MAX,
        s.braille_shown(area, trace, reach, color, before, after),
    ensures
        measured_in_dots(s.rows[0], area, reach, color, r.0, r.1),
        r.2.len() == 2 * area.width,
        forall|sx: int|
            0 <= sx < r.2.len() ==> #[trigger] r.2[sx] + bar_height(
                r.0[sx] as int,
                4 * area.height,
            ) == 4 * area.height,
        forall|p: (u16, u16)| #[trigger]
            cells(before).contains_key(p) ==> braille_due(
                cells(before)[p],
                cells(after)[p],
                area,
                r.2,
                r.1,
                trace,
                p,
            ),
{
    let row = s.rows[0];
    let (filled, shades) = choose|filled: Seq<usize>, shades: Seq<Color>|
        {
            &&& #[trigger] braille_scaled(row, area, reach, color, filled, shades)
            &&& crate::tui::paint::shows(
                before,
                after,
                braille(area, tips(filled, 4 * area.height), shades, area.width as nat, trace),
            )
        };
    let tops = tips(filled, 4 * area.height);
    let db = folds(row, 2 * area.width);
    assert forall|sx: int| 0 <= sx < filled.len() implies reaches(
        row,
        sx,
        2 * area.width,
        reach,
        4 * area.height,
        #[trigger] filled[sx],
    ) by {
        columns_show_their_peaks(row, sx, 2 * area.width);
        assert(column_peak(row, sx, 2 * area.width, db[sx]));
    }
    assert forall|cx: int| 0 <= cx < shades.len() implies shaded_by_two(
        row,
        2 * cx,
        2 * area.width,
        color,
        #[trigger] shades[cx],
    ) by {
        columns_show_their_peaks(row, 2 * cx, 2 * area.width);
        columns_show_their_peaks(row, 2 * cx + 1, 2 * area.width);
        assert(column_peak(row, 2 * cx, 2 * area.width, db[2 * cx]));
        assert(column_peak(row, 2 * cx + 1, 2 * area.width, db[2 * cx + 1]));
    }
    assert forall|p: (u16, u16)| #[trigger] cells(before).contains_key(p) implies braille_due(
        cells(before)[p],
        cells(after)[p],
        area,
        tops,
        shades,
        trace,
        p,
    ) by {
        braille_dots_are_where_they_belong(
            cells(before),
            bounds(before),
            area,
            tops,
            shades,
            trace,
            p,
        );
    }
    (filled, shades, tops)
}

/// The heights and colours are those of a row in blocks.
pub open spec fn measured_in_eighths<E: Fn(i32, usize) -> usize, K: Fn(i32) -> Color>(
    row: Seq<i32>,
    area: Rect,
    eighths: E,
    color: K,
    heights: Seq<usize>,
    shades: Seq<Color>,
) -> bool {
    &&& heights.len() == area.width
    &&& shades.len() == area.width
    &&& forall|x: int|
        0 <= x < area.width ==> reaches(
            row,
            x,
            area.width as int,
            eighths,
            8 * area.height,
            #[trigger] heights[x],
        )
    &&& forall|x: int|
        0 <= x < area.width ==> shaded(row, x, area.width as int, color, #[trigger] shades[x])
}

/// The cell shows what is due of bars of so many eighths.
pub open spec fn bars_due(
    before: CellView,
    after: CellView,
    area: Rect,
    heights: Seq<usize>,
    shades: Seq<Color>,
    p: (u16, u16),
) -> bool {
    let cx = p.0 - area.x;
    let inside = 0 <= cx < area.width && area.y <= p.1 < area.y + area.height;
    let below = area.y + area.height - 1 - p.1;
    &&& !inside || heights[cx] <= 8 * below ==> after == before
    &&& inside && heights[cx] > 8 * below ==> {
        &&& after.symbol.len() == 1
        &&& heights[cx] >= 8 * (below + 1) ==> after.symbol[0] == '\u{2588}'
        &&& heights[cx] < 8 * (below + 1) ==> after.symbol[0] as int - 0x2580 == heights[cx] - 8
            * below
        &&& after.fg == color_code(shades[cx])
        &&& after.bg == before.bg
        &&& after.modifiers == before.modifiers
    }
}

/// The spectrum in blocks: every column as many eighths of a cell high as its peak
/// reaches, counted up from the bottom of the plot.
pub proof fn block_spectrum_is_seen<E: Fn(i32, usize) -> usize, K: Fn(i32) -> Color>(
    s: SignalState,
    area: Rect,
    eighths: E,
    color: K,
    before: Screen,
    after: Screen,
) -> (r: (Seq<usize>, Seq<Color>))
    requires
        s.wf(),
        s.bins > 0,
        s.rows.len() > 0,
        area.width > 0,
        area.height > 0,
        area.x + area.width <= u16::MAX,
        area.y + area.height <= u16::MAX,
        s.blocks_shown(area, eighths, color, before, after),
    ensures
        measured_in_eighths(s.rows[0], area, eighths, color, r.0, r.1),
        forall|p: (u16, u16)| #[trigger]
            cells(before).contains_key(p) ==> bars_due(
                cells(before)[p],
                cells(after)[p],
                area,
                r.0,
                r.1,
                p,
            ),
{
    let row = s.rows[0];
    let w = area.width as int;
    let (heights, shades) = choose|heights: Seq<usize>, shades: Seq<Color>|
        {
            &&& #[trigger] blocks_scaled(row, area, eighths, color, heights, shades)
            &&& crate::tui::paint::shows(
                before,
                after,
                bars(area, heights, shades, area.width as nat),
            )
        };
    let db = folds(row, w);
    assert forall|x: int| 0 <= x < area.width implies reaches(
        row,
        x,
        w,
        eighths,
        8 * area.height,
        #[trigger] heights[x],
    ) by {
        columns_show_their_peaks(row, x, w);
        assert(column_peak(row, x, w, db[x]));
    }
    assert forall|x: int| 0 <= x < area.width implies shaded(
        row,
        x,
        w,
        color,
        #[trigger] shades[x],
    ) by {
        columns_show_their_peaks(row, x, w);
        assert(column_peak(row, x, w, db[x]));
    }
    assert forall|p: (u16, u16)| #[trigger] cells(before).contains_key(p) implies bars_due(
        cells(before)[p],
        cells(after)[p],
        area,
        heights,
        shades,
        p,
    ) by {
        bars_stand_on_the_bottom(cells(before), bounds(before), area, heights, shades, p);
    }
    (heights, shades)
}

/// The colour of line `i` of the waterfall in column `x`: that of the peak the
/// column has in the row of `i` frames ago, or of an empty well behind the oldest.
pub open spec fn line_color<K: Fn(i32) -> Color>(
    rows: Seq<Seq<i32>>,
    i: int,
    x: int,
    width: int,
    color: K,
    c: Color,
) -> bool {
    if i < rows.len() {
        exists|v: i32| #[trigger]
            column_peak(rows[i], x, width, v) && call_ensures(color, (v,), c)
    } else {
        c == colors::WATERFALL_EMPTY
    }
}

/// The waterfall is on the screen: the newest row at the top, two rows a line of
/// cells, the newer as the upper half of a cell and the older as the lower.
pub proof fn waterfall_is_seen<K: Fn(i32) -> Color>(
    s: SignalState,
    area: Rect,
    color: K,
    before: Screen,
    after: Screen,
    p: (u16, u16),
) -> (c: (Color, Color))
    requires
        s.wf(),
        s.bins > 0,
        area.width > 0,
        area.height > 0,
        area.x + area.width <= u16::MAX,
        area.y + area.height <= u16::MAX,
        s.waterfall_shown(area, color, before, after),
        cells(before).contains_key(p),
    ensures
        ({
            let x = p.0 - area.x;
            let y = p.1 - area.y;
            let inside = 0 <= x < area.width && 0 <= y < area.height;
            &&& !inside ==> cells(after)[p] == cells(before)[p]
            &&& inside ==> {
                &&& cells(after)[p].symbol == seq!['\u{2580}']
                &&& cells(after)[p].fg == color_code(c.0)
                &&& cells(after)[p].bg == color_code(c.1)
                &&& cells(after)[p].modifiers == cells(before)[p].modifiers
                &&& line_color(s.rows, 2 * y, x, area.width as int, color, c.0)
                &&& line_color(s.rows, 2 * y + 1, x, area.width as int, color, c.1)
            }
        }),
{
    let w = area.width as int;
    let lines = choose|lines: Seq<Seq<Color>>|
        {
            &&& lines.len() == 2 * area.height
            &&& #[trigger] s.water_lines(w, color, lines)
            &&& crate::tui::paint::shows(before, after, water(area, lines, area.height as nat))
        };
    let x = p.0 - area.x;
    let y = p.1 - area.y;
    lines_run_down_the_screen(cells(before), bounds(before), area, lines, p);
    if 0 <= x < area.width && 0 <= y < area.height {
        lemma_line(s, lines, 2 * y, x, w, color);
        lemma_line(s, lines, 2 * y + 1, x, w, color);
        (lines[2 * y][x], lines[2 * y + 1][x])
    } else {
        ((0u8, 0u8, 0u8), (0u8, 0u8, 0u8))
    }
}

/// One place of one line.
proof fn lemma_line<K: Fn(i32) -> Color>(
    s: SignalState,
    lines: Seq<Seq<Color>>,
    i: int,
    x: int,
    w: int,
    color: K,
)
    requires
        s.wf(),
        s.bins > 0,
        s.water_lines(w, color, lines),
        0 <= i < lines.len(),
        0 <= x < w,
    ensures
        line_color(s.rows, i, x, w, color, lines[i][x]),
{
    assert(s.water_line(i, w, color, lines[i]));
    let c = lines[i][x];
    if i < s.rows.len() {
        columns_show_their_peaks(s.rows[i], x, w);
        assert(call_ensures(color, (folded(s.rows[i], x, w),), lines[i][x]));
    }
}

/// The column of a frequency on a plot as wide as the sample rate: as far from the
/// left edge, in columns, as the frequency is from the lowest one, in Hz.
pub proof fn a_frequency_has_its_column(hz: int, width: int, center: int, span: int)
    requires
        width > 0,
        span > 0,
    ensures
        ({
            let above = 2 * hz - (2 * center - span);
            &&& frequency_column(hz, width, center, span) is Some <==> 0 <= above < 2 * span
            &&& frequency_column(hz, width, center, span) matches Some(x) ==> {
                &&& 0 <= x < width
                &&& x * (2 * span) <= above * width
                &&& above * width < (x + 1) * (2 * span)
            }
        }),
{
    lemma_column_on_plot(hz, width, center, span);
    let above = 2 * hz - (2 * center - span);
    if 0 <= above < 2 * span {
        let n = above * width;
        let d = 2 * span;
        vstd::arithmetic::div_mod::lemma_fundamental_div_mod(n, d);
        let x = n / d;
        assert(x * d == d * x && (x + 1) * d == d * x + d) by (nonlinear_arith);
    }
}

/// The cursors are drawn over the plots, and the centre over the channel: in the
/// column of the centre every cell of the spectrum and of the waterfall is a rule in
/// the colour of the centre, and in the column of the channel, where it is another
/// one, in the colour of the channel.
pub proof fn cursors_are_seen(
    l: SignalLayout,
    states: TuiStates,
    before: Map<(u16, u16), CellView>,
    frame: Rect,
    p: (u16, u16),
)
    requires
        l.spec.x == l.water.x,
        l.spec.width == l.water.width,
        l.spec.width > 0,
        l.spec.y + l.spec.height <= l.water.y,
        l.spec.x + l.spec.width <= u16::MAX,
        l.spec.y + l.spec.height <= u16::MAX,
        l.water.y + l.water.height <= u16::MAX,
        before.contains_key(p),
    ensures
        ({
            let after = drawn(
                before,
                frame,
                marks(l, states.tuned_freq, colors::CURSOR_TUNED, states) + marks(
                    l,
                    states.center_freq,
                    colors::CURSOR_CENTER,
                    states,
                ),
            )[p];
            let w = l.spec.width as int;
            let centre = frequency_column(
                states.center_freq as int,
                w,
                states.center_freq as int,
                states.sample_rate as int,
            );
            let tuned = frequency_column(
                states.tuned_freq as int,
                w,
                states.center_freq as int,
                states.sample_rate as int,
            );
            let on_plot = (l.spec.y <= p.1 < l.spec.y + l.spec.height) || (l.water.y <= p.1
                < l.water.y + l.water.height);
            let x = p.0 - l.spec.x;
            &&& on_plot && centre == Some(x) ==> after.symbol == seq!['\u{2502}'] && after.fg
                == color_code(colors::CURSOR_CENTER)
            &&& on_plot && tuned == Some(x) && centre != Some(x) ==> after.symbol == seq![
                '\u{2502}',
            ] && after.fg == color_code(colors::CURSOR_TUNED)
            &&& !on_plot || (centre != Some(x) && tuned != Some(x)) ==> after == before[p]
        }),
{
    let a = marks(l, states.tuned_freq, colors::CURSOR_TUNED, states);
    let b = marks(l, states.center_freq, colors::CURSOR_CENTER, states);
    lemma_drawn_add(before, frame, a, b);
    lemma_mark(l, states.tuned_freq, colors::CURSOR_TUNED, states, before, frame, p);
    let between = drawn(before, frame, a);
    lemma_mark(l, states.center_freq, colors::CURSOR_CENTER, states, between, frame, p);
}

/// One frequency on both plots.
proof fn lemma_mark(
    l: SignalLayout,
    hz: u32,
    color: Color,
    states: TuiStates,
    screen: Map<(u16, u16), CellView>,
    frame: Rect,
    p: (u16, u16),
)
    requires
        l.spec.x == l.water.x,
        l.spec.width == l.water.width,
        l.spec.x + l.spec.width <= u16::MAX,
        l.spec.y + l.spec.height <= u16::MAX,
        l.water.y + l.water.height <= u16::MAX,
        l.spec.y + l.spec.height <= l.water.y,
        screen.contains_key(p),
    ensures
        ({
            let after = drawn(screen, frame, marks(l, hz, color, states));
            let column = frequency_column(
                hz as int,
                l.spec.width as int,
                states.center_freq as int,
                states.sample_rate as int,
            );
            let on_plot = (l.spec.y <= p.1 < l.spec.y + l.spec.height) || (l.water.y <= p.1
                < l.water.y + l.water.height);
            let marked = on_plot && column == Some(p.0 - l.spec.x);
            &&& after.contains_key(p)
            &&& marked ==> after[p].symbol == seq!['\u{2502}'] && after[p].fg == color_code(color)
            &&& !marked ==> after[p] == screen[p]
        }),
{
    let column = frequency_column(
        hz as int,
        l.spec.width as int,
        states.center_freq as int,
        states.sample_rate as int,
    );
    lemma_column_on_plot(
        hz as int,
        l.spec.width as int,
        states.center_freq as int,
        states.sample_rate as int,
    );
    match column {
        Some(x) => {
            let a = cursor(l.spec, x, color);
            let b = cursor(l.water, x, color);
            lemma_drawn_add(screen, frame, a, b);
            cursor_marks_its_column(screen, frame, l.spec, x, color, p);
            cursor_marks_its_column(drawn(screen, frame, a), frame, l.water, x, color, p);
        },
        None => {
            assert(drawn(screen, frame, Seq::<Stroke>::empty()) == screen);
        },
    }
}

} // verus!
