//! The axes of the signal panel: where a mark stands, and drawing it.

use ratatui::buffer::Buffer as Screen;
use vstd::prelude::*;
use vstd::string::StringExecFns;

use crate::tui::colors;
use crate::tui::paint::{
    bounds, color_code, draw_line, draw_spans, drawn, lemma_fresh, lemma_next, margin, set_glyph,
    shows, span_views, whole, CellView, Color, Rect, Span, Stroke, Style, TEXT_MAX,
};
use crate::tui::signal_view::{end_bin, first_bin};

verus! {

/// Marks on an axis, at most. A pane that cannot hold them all gets fewer.
pub const MARKS: usize = 6;

/// The column of a frequency on a plot of `width` columns that spans `span` Hz
/// around `center`, or nothing where the frequency is not on the plot.
pub open spec fn frequency_column(hz: int, width: int, center: int, span: int) -> Option<int> {
    let halves = 2 * (hz - center) + span;
    if width > 0 && 0 <= halves < 2 * span {
        Some(halves * width / (2 * span))
    } else {
        None
    }
}

/// The column lies on the plot.
pub proof fn lemma_column_on_plot(hz: int, width: int, center: int, span: int)
    ensures
        frequency_column(hz, width, center, span) matches Some(x) ==> 0 <= x < width,
{
    let halves = 2 * (hz - center) + span;
    if width > 0 && 0 <= halves < 2 * span {
        let n = halves * width;
        let d = 2 * span;
        assert(0 <= n < d * width) by (nonlinear_arith)
            requires
                n == halves * width,
                0 <= halves < d,
                width > 0,
        ;
        vstd::arithmetic::div_mod::lemma_fundamental_div_mod(n, d);
        vstd::arithmetic::div_mod::lemma_div_pos_is_pos(n, d);
        assert(n / d < width) by (nonlinear_arith)
            requires
                n == d * (n / d) + n % d,
                0 <= n % d,
                n < d * width,
                d > 0,
        ;
    }
}

/// The column of a frequency. The cursor has to sit over the data it points at,
/// so the columns are counted as the bins are folded onto them, not as the
/// labels are placed.
pub fn freq_col(hz: u32, width: u16, center: u32, span: u32) -> (x: Option<u16>)
    ensures
        match frequency_column(hz as int, width as int, center as int, span as int) {
            Some(c) => x == Some(c as u16) && c < width,
            None => x is None,
        },
{
    proof {
        lemma_column_on_plot(hz as int, width as int, center as int, span as int);
    }
    if width == 0 {
        return None;
    }
    let halves: i64 = 2 * (hz as i64 - center as i64) + span as i64;
    if halves < 0 || halves >= 2 * (span as i64) {
        return None;
    }
    assert(0 <= halves * width <= 0x2_0000_0000 * 0x1_0000) by (nonlinear_arith)
        requires
            0 <= halves < 0x2_0000_0000,
            0 <= width < 0x1_0000,
    ;
    Some((halves as u64 * width as u64 / (2 * (span as u64))) as u16)
}

/// The centre stands in the middle of the plot.
pub proof fn centre_is_in_the_middle(width: int, center: int, span: int)
    requires
        width > 0,
        span > 0,
    ensures
        frequency_column(center, width, center, span) == Some(width / 2),
{
    assert(span * width / (2 * span) == width / 2) by {
        vstd::arithmetic::div_mod::lemma_truncate_middle(width, span, 2);
        vstd::arithmetic::div_mod::lemma_div_denominator(span * width, span, 2);
        vstd::arithmetic::mul::lemma_mul_is_commutative(span, 2);
        vstd::arithmetic::div_mod::lemma_div_multiples_vanish(width, span);
    }
}

/// A higher frequency is never further to the left.
pub proof fn columns_rise_with_frequency(a: int, b: int, width: int, center: int, span: int)
    requires
        a <= b,
        frequency_column(a, width, center, span) is Some,
        frequency_column(b, width, center, span) is Some,
    ensures
        frequency_column(a, width, center, span)->0 <= frequency_column(
            b,
            width,
            center,
            span,
        )->0,
{
    let m = 2 * (a - center) + span;
    let n = 2 * (b - center) + span;
    assert(m * width <= n * width) by (nonlinear_arith)
        requires
            m <= n,
            width > 0,
    ;
    vstd::arithmetic::div_mod::lemma_div_is_ordered(m * width, n * width, 2 * span);
}

/// The cursor is over the data: the bin a frequency falls into is folded onto
/// the column of that frequency, or is the first one behind it where the column
/// ends inside of a bin.
pub proof fn cursor_is_over_its_bin(hz: int, bins: int, width: int, center: int, span: int)
    requires
        bins > 0,
        frequency_column(hz, width, center, span) is Some,
    ensures
        ({
            let x = frequency_column(hz, width, center, span)->0;
            let b = frequency_column(hz, bins, center, span)->0;
            &&& frequency_column(hz, bins, center, span) is Some
            &&& first_bin(bins, x, width) <= b <= end_bin(bins, x, width)
            &&& bins % width == 0 ==> b < end_bin(bins, x, width)
        }),
{
    let h = 2 * (hz - center) + span;
    let d = 2 * span;
    let x = h * width / d;
    let b = h * bins / d;
    lemma_column_on_plot(hz, width, center, span);
    lemma_column_on_plot(hz, bins, center, span);
    vstd::arithmetic::div_mod::lemma_fundamental_div_mod(h * width, d);
    vstd::arithmetic::div_mod::lemma_fundamental_div_mod(h * bins, d);
    let lo = x * bins;
    let hi = (x + 1) * bins;
    vstd::arithmetic::div_mod::lemma_fundamental_div_mod(lo, width);
    vstd::arithmetic::div_mod::lemma_fundamental_div_mod(hi, width);
    // The column starts no later than the frequency does.
    assert(d * x <= h * width && h * width < d * (x + 1)) by (nonlinear_arith)
        requires
            h * width == d * x + (h * width) % d,
            0 <= (h * width) % d < d,
    ;
    assert(d * b <= h * bins && h * bins < d * (b + 1)) by (nonlinear_arith)
        requires
            h * bins == d * b + (h * bins) % d,
            0 <= (h * bins) % d < d,
    ;
    let l = lo / width;
    assert(width * l <= lo && d > 0 && width > 0);
    assert(l <= b) by (nonlinear_arith)
        requires
            width * l <= x * bins,
            d * x <= h * width,
            h * bins < d * (b + 1),
            d > 0,
            width > 0,
            bins > 0,
    {
        // d·width·l <= d·x·bins <= h·width·bins < d·width·(b + 1)
        assert(d * (width * l) <= d * (x * bins));
        assert((d * x) * bins <= (h * width) * bins);
        assert((h * bins) * width < (d * (b + 1)) * width);
        assert(d * (width * l) < (d * (b + 1)) * width);
        assert(d * width * l < d * width * (b + 1));
    }
    let e = hi / width;
    assert(hi < width * (e + 1)) by (nonlinear_arith)
        requires
            hi == width * e + hi % width,
            hi % width < width,
    ;
    assert(b < e + 1) by (nonlinear_arith)
        requires
            (x + 1) * bins < width * (e + 1),
            h * width < d * (x + 1),
            d * b <= h * bins,
            d > 0,
            width > 0,
            bins > 0,
    {
        // d·width·b <= h·bins·width < d·(x + 1)·bins < d·width·(e + 1)
        assert((d * b) * width <= (h * bins) * width);
        assert((h * width) * bins < (d * (x + 1)) * bins);
        assert(d * ((x + 1) * bins) < d * (width * (e + 1)));
        assert(d * width * b < d * width * (e + 1));
    }
    if bins % width == 0 {
        let k = bins / width;
        vstd::arithmetic::div_mod::lemma_fundamental_div_mod(bins, width);
        assert(hi == width * ((x + 1) * k)) by (nonlinear_arith)
            requires
                hi == (x + 1) * bins,
                bins == width * k,
        ;
        vstd::arithmetic::div_mod::lemma_div_multiples_vanish((x + 1) * k, width);
        assert(hi == width * e);
        assert(b < e) by (nonlinear_arith)
            requires
                (x + 1) * bins == width * e,
                h * width < d * (x + 1),
                d * b <= h * bins,
                d > 0,
                width > 0,
                bins > 0,
        {
            assert((d * b) * width <= (h * bins) * width);
            assert((h * width) * bins < (d * (x + 1)) * bins);
            assert(d * ((x + 1) * bins) == d * (width * e));
            assert(d * width * b < d * width * e);
        }
    }
}

/// What a cursor amounts to: a full-height rule at column `x` of the area.
pub open spec fn cursor(area: Rect, x: int, color: Color) -> Seq<Stroke> {
    Seq::new(
        area.height as nat,
        |i: int|
            Stroke::Glyph {
                x: (area.x + x) as u16,
                y: (area.y + i) as u16,
                glyph: '\u{2502}',
                fg: color,
            },
    )
}

/// Draw a full-height rule at column `x` of the area. A glyph rather than a
/// tint: the waterfall packs two rows into every cell, as foreground and as
/// background, and a tint would erase one of them.
pub fn render_cursor(area: Rect, x: u16, color: Color, buf: &mut Screen)
    requires
        area.x + x <= u16::MAX,
        area.y + area.height <= u16::MAX,
    ensures
        shows(*old(buf), *final(buf), cursor(area, x as int, color)),
{
    let ghost start = *buf;
    let ghost want = cursor(area, x as int, color);
    let mut i: u16 = 0;
    proof {
        lemma_fresh(start);
        assert(want.take(0) =~= Seq::<Stroke>::empty());
    }
    while i < area.height
        invariant
            i <= area.height,
            area.x + x <= u16::MAX,
            area.y + area.height <= u16::MAX,
            want == cursor(area, x as int, color),
            shows(start, *buf, want.take(i as int)),
        decreases area.height - i,
    {
        let ghost before = *buf;
        set_glyph(buf, area.x + x, area.y + i, '\u{2502}', color);
        proof {
            lemma_next(start, before, *buf, want.take(i as int), want[i as int]);
            assert(want.take(i as int).push(want[i as int]) =~= want.take(i + 1));
        }
        i += 1;
    }
    assert(want.take(area.height as int) =~= want);
}

/// A cursor marks every cell of its column, whatever was there, and no other
/// cell.
pub proof fn cursor_marks_its_column(
    screen: Map<(u16, u16), CellView>,
    frame: Rect,
    area: Rect,
    x: int,
    color: Color,
    p: (u16, u16),
)
    requires
        screen.contains_key(p),
        0 <= x,
        area.x + x <= u16::MAX,
        area.y + area.height <= u16::MAX,
    ensures
        drawn(screen, frame, cursor(area, x, color)).contains_key(p),
        p.0 == area.x + x && area.y <= p.1 < area.y + area.height ==> {
            &&& drawn(screen, frame, cursor(area, x, color))[p].symbol == seq!['\u{2502}']
            &&& drawn(screen, frame, cursor(area, x, color))[p].fg == color_code(color)
        },
        !(p.0 == area.x + x && area.y <= p.1 < area.y + area.height) ==> drawn(
            screen,
            frame,
            cursor(area, x, color),
        )[p] == screen[p],
{
    lemma_cursor_cells(screen, frame, area, x, color, p, area.height as int);
    assert(cursor(area, x, color).take(area.height as int) =~= cursor(area, x, color));
}

/// The same of the first cells of a cursor.
proof fn lemma_cursor_cells(
    screen: Map<(u16, u16), CellView>,
    frame: Rect,
    area: Rect,
    x: int,
    color: Color,
    p: (u16, u16),
    n: int,
)
    requires
        screen.contains_key(p),
        0 <= x,
        0 <= n <= area.height,
        area.x + x <= u16::MAX,
        area.y + area.height <= u16::MAX,
    ensures
        ({
            let after = drawn(screen, frame, cursor(area, x, color).take(n));
            let marked = p.0 == area.x + x && area.y <= p.1 < area.y + n;
            &&& after.contains_key(p)
            &&& marked ==> after[p].symbol == seq!['\u{2502}'] && after[p].fg == color_code(color)
            &&& !marked ==> after[p] == screen[p]
        }),
    decreases n,
{
    let all = cursor(area, x, color);
    if n == 0 {
        assert(all.take(0).len() == 0);
    } else {
        lemma_cursor_cells(screen, frame, area, x, color, p, n - 1);
        assert(all.take(n).drop_last() =~= all.take(n - 1));
        assert(all.take(n).last() == all[n - 1]);
    }
}

/// The texts of some labels.
pub open spec fn texts(labels: Seq<String>) -> Seq<Seq<char>> {
    labels.map_values(|s: String| s@)
}

/// The labels are those of an axis from `from` to `to` with so many marks.
pub open spec fn labelled<F: Fn(i64, i64, usize, usize) -> String>(
    label: F,
    from: i64,
    to: i64,
    marks: usize,
    labels: Seq<String>,
) -> bool {
    &&& labels.len() == marks
    &&& forall|j: usize|
        j < marks ==> call_ensures(label, (from, to, j, marks), #[trigger] labels[j as int])
}

/// Every mark of an axis can be labelled, and no label is too long to be drawn.
pub open spec fn can_label<F: Fn(i64, i64, usize, usize) -> String>(
    label: F,
    from: i64,
    to: i64,
) -> bool {
    &&& forall|j: usize, marks: usize| call_requires(label, (from, to, j, marks))
    &&& forall|j: usize, marks: usize, s: String| #[trigger]
        call_ensures(label, (from, to, j, marks), s) ==> s@.len() <= TEXT_MAX
}

/// No label is too long to be drawn.
pub open spec fn legible(labels: Seq<String>) -> bool {
    forall|i: int| 0 <= i < labels.len() ==> (#[trigger] labels[i])@.len() <= TEXT_MAX
}

/// The labels of an axis. Mark `j` of `marks` is the value so far along the way
/// from one end to the other, not one picked from a longer list: picking leaves
/// uneven gaps.
pub fn axis_labels<F: Fn(i64, i64, usize, usize) -> String>(
    label: &F,
    from: i64,
    to: i64,
    marks: usize,
) -> (labels: Vec<String>)
    requires
        can_label(*label, from, to),
    ensures
        labelled(*label, from, to, marks, labels@),
        legible(labels@),
{
    let mut labels: Vec<String> = Vec::new();
    let mut j: usize = 0;
    while j < marks
        invariant
            j <= marks,
            labels@.len() == j,
            can_label(*label, from, to),
            forall|k: usize|
                k < j ==> call_ensures(*label, (from, to, k, marks), #[trigger] labels@[k as int]),
            legible(labels@),
        decreases marks - j,
    {
        labels.push(label(from, to, j, marks));
        j += 1;
    }
    labels
}

/// How many labels a vertical axis shows: at most one a row, and none where
/// there is no room for both ends or for a digit and its tick.
pub open spec fn vertical_marks(area: Rect) -> int {
    if area.width < 2 || area.height < 2 {
        0
    } else if area.height < MARKS {
        area.height as int
    } else {
        MARKS as int
    }
}

/// How many labels a vertical axis shows.
pub fn vaxis_marks(area: Rect) -> (n: usize)
    ensures
        n == vertical_marks(area),
{
    if area.width < 2 || area.height < 2 {
        0
    } else if (area.height as usize) < MARKS {
        area.height as usize
    } else {
        MARKS
    }
}

/// Where mark `j` of `marks` stands on an axis of `extent` cells.
pub open spec fn tick(j: int, extent: int, marks: int) -> int {
    j * (extent - 1) / (marks - 1)
}

/// The first mark stands on the first cell and the last on the last, and no
/// two marks share a cell.
pub proof fn marks_bound_the_axis(extent: int, marks: int)
    requires
        2 <= marks <= extent,
    ensures
        tick(0, extent, marks) == 0,
        tick(marks - 1, extent, marks) == extent - 1,
        forall|j: int|
            0 <= j < marks - 1 ==> 0 <= #[trigger] tick(j, extent, marks) < tick(
                j + 1,
                extent,
                marks,
            ) <= extent - 1,
{
    assert(0 * (extent - 1) / (marks - 1) == 0) by (nonlinear_arith)
        requires
            marks >= 2,
    ;
    vstd::arithmetic::div_mod::lemma_div_multiples_vanish(extent - 1, marks - 1);
    assert forall|j: int| 0 <= j < marks - 1 implies 0 <= #[trigger] tick(j, extent, marks) < tick(
        j + 1,
        extent,
        marks,
    ) <= extent - 1 by {
        lemma_tick_step(j, extent, marks, 1);
    }
}

/// Marks stand at least as far apart as there is room for each.
pub proof fn lemma_tick_step(j: int, extent: int, marks: int, room: int)
    requires
        0 <= j < marks - 1,
        1 <= room,
        (marks - 1) * room <= extent - 1,
    ensures
        0 <= tick(j, extent, marks),
        tick(j, extent, marks) + room <= tick(j + 1, extent, marks) <= extent - 1,
{
    let d = marks - 1;
    let e = extent - 1;
    let a = j * e;
    let b = (j + 1) * e;
    assert(0 <= a && a + d * room <= b && b <= d * e) by (nonlinear_arith)
        requires
            a == j * e,
            b == (j + 1) * e,
            d * room <= e,
            0 <= j < d,
            1 <= room,
    ;
    vstd::arithmetic::div_mod::lemma_fundamental_div_mod(a, d);
    vstd::arithmetic::div_mod::lemma_fundamental_div_mod(b, d);
    vstd::arithmetic::div_mod::lemma_div_pos_is_pos(a, d);
    assert(a / d + room <= b / d) by (nonlinear_arith)
        requires
            a == d * (a / d) + a % d,
            b == d * (b / d) + b % d,
            0 <= a % d,
            b % d < d,
            a + d * room <= b,
            d > 0,
    ;
    assert(b / d <= e) by (nonlinear_arith)
        requires
            b == d * (b / d) + b % d,
            0 <= b % d,
            b <= d * e,
            d > 0,
    ;
}

/// A text with blanks in front, up to a width.
pub open spec fn padded(text: Seq<char>, width: int) -> Seq<char> {
    Seq::new(
        if text.len() < width {
            (width - text.len()) as nat
        } else {
            0
        },
        |i: int| ' ',
    ) + text
}

/// A text with blanks in front, up to a width.
pub fn pad(text: &String, width: usize) -> (s: String)
    ensures
        s@ == padded(text@, width as int),
{
    let n: usize = text.as_str().unicode_len();
    let mut s = String::from_str("");
    let mut i: usize = n;
    proof {
        reveal_strlit("");
        reveal_strlit(" ");
        assert(s@ =~= Seq::new(0, |i: int| ' '));
    }
    while i < width
        invariant
            n == text@.len(),
            n <= i,
            i <= width || i == n,
            s@ == Seq::new((i - n) as nat, |i: int| ' '),
        decreases width - i,
    {
        s.append(" ");
        i += 1;
        proof {
            reveal_strlit(" ");
            assert(s@ =~= Seq::new((i - n) as nat, |i: int| ' '));
        }
    }
    s.append(text.as_str());
    s
}

/// What a vertical axis amounts to: the labels against the plot, each with a
/// tick that is dimmer than it.
pub open spec fn vertical_axis(area: Rect, labels: Seq<Seq<char>>) -> Seq<Stroke> {
    Seq::new(
        labels.len(),
        |j: int|
            Stroke::Spans {
                spans: seq![
                    (padded(labels[j], area.width - 1), Style::ink(colors::LABEL)),
                    ("\u{2524}"@, Style::ink(colors::BORDER)),
                ],
                area: Rect::spec_new(
                    area.x,
                    (area.y + tick(j, area.height as int, labels.len() as int)) as u16,
                    area.width,
                    1,
                ),
            },
    )
}

/// Draw a vertical axis, the first label on the first row and the last on the
/// last.
pub fn render_vaxis(area: Rect, buf: &mut Screen, labels: &Vec<String>)
    requires
        whole(*old(buf)),
        labels@.len() == vertical_marks(area),
        legible(labels@),
        area.width <= TEXT_MAX,
        area.y + area.height <= u16::MAX,
        margin(area, bounds(*old(buf))),
    ensures
        shows(*old(buf), *final(buf), vertical_axis(area, texts(labels@))),
{
    let ghost start = *buf;
    let ghost want = vertical_axis(area, texts(labels@));
    let shown: usize = labels.len();
    let height: usize = area.height as usize;
    let mut j: usize = 0;
    proof {
        lemma_fresh(start);
        reveal_strlit("\u{2524}");
        assert(want.take(0) =~= Seq::<Stroke>::empty());
        if shown > 0 {
            marks_bound_the_axis(height as int, shown as int);
        }
    }
    while j < shown
        invariant
            j <= shown,
            shown == labels@.len(),
            shown == vertical_marks(area),
            shown <= 6,
            height == area.height,
            height <= u16::MAX,
            area.y + area.height <= u16::MAX,
            area.width <= TEXT_MAX,
            legible(labels@),
            margin(area, bounds(*buf)),
            "\u{2524}"@.len() == 1,
            shown > 0 ==> tick(shown - 1, height as int, shown as int) == height - 1,
            forall|j: int|
                0 <= j < shown - 1 ==> 0 <= #[trigger] tick(j, height as int, shown as int)
                    <= height - 1,
            whole(start),
            whole(*buf),
            want == vertical_axis(area, texts(labels@)),
            shows(start, *buf, want.take(j as int)),
        decreases shown - j,
    {
        assert(0 <= tick(j as int, height as int, shown as int) <= height - 1);
        assert(0 <= j * (height - 1) <= 6 * 65535) by (nonlinear_arith)
            requires
                0 <= j <= 6,
                1 <= height <= 65535,
        ;
        let row: u16 = (j * (height - 1) / (shown - 1)) as u16;
        let mut spans: Vec<Span> = Vec::new();
        spans.push(
            Span {
                text: pad(&labels[j], area.width as usize - 1),
                style: Style::new().fg(colors::LABEL),
            },
        );
        spans.push(
            Span {
                text: String::from_str("\u{2524}"),
                style: Style::new().fg(colors::BORDER),
            },
        );
        let row_area = Rect::new(area.x, area.y + row, area.width, 1);
        let ghost before = *buf;
        draw_spans(buf, &spans, row_area);
        proof {
            let stroke = want[j as int];
            assert(span_views(spans@) =~= stroke->Spans_spans);
            lemma_next(start, before, *buf, want.take(j as int), stroke);
            assert(want.take(j as int).push(stroke) =~= want.take(j + 1));
        }
        j += 1;
    }
    assert(want.take(shown as int) =~= want);
}

/// How much room a label of the frequency axis needs to itself. The ends are
/// flush with the plot rather than centred on their marks, which takes half a
/// label more from their neighbours.
pub open spec fn spacing(widest: int) -> int {
    widest + widest / 2 + 1
}

/// How many labels the frequency axis shows, given the length of the widest:
/// as many as fit, and none where there is no room for both ends.
pub open spec fn frequency_marks(width: int, widest: int) -> int {
    if widest <= 0 || widest > width {
        0
    } else {
        let room = (width - 1) / spacing(widest) + 1;
        let shown = if room < MARKS {
            room
        } else {
            MARKS as int
        };
        if shown < 2 {
            0
        } else {
            shown
        }
    }
}

/// There are no more labels than columns.
pub proof fn lemma_marks_fit(width: int, widest: int)
    requires
        width >= 0,
    ensures
        0 <= frequency_marks(width, widest) <= width,
        frequency_marks(width, widest) <= MARKS,
        frequency_marks(width, widest) != 1,
{
    if 0 < widest <= width {
        vstd::arithmetic::div_mod::lemma_div_nonincreasing(width - 1, spacing(widest));
        vstd::arithmetic::div_mod::lemma_div_pos_is_pos(width - 1, spacing(widest));
    }
}

/// How many labels the frequency axis shows.
pub fn freq_marks(width: u16, widest: usize) -> (n: usize)
    ensures
        n == frequency_marks(width as int, widest as int),
{
    if widest == 0 || widest > width as usize {
        return 0;
    }
    let min_spacing: usize = widest + widest / 2 + 1;
    let room: usize = (width as usize - 1) / min_spacing + 1;
    let shown: usize = if room < MARKS {
        room
    } else {
        MARKS
    };
    if shown < 2 {
        0
    } else {
        shown
    }
}

/// Where a label of length `len` starts: centred on its mark, and moved as far
/// as it takes to stay on the axis.
pub open spec fn label_start(j: int, width: int, marks: int, len: int) -> int {
    let at = tick(j, width, marks);
    let left = if at < len / 2 {
        0
    } else {
        at - len / 2
    };
    let most = if len < width {
        width - len
    } else {
        0
    };
    if left < most {
        left
    } else {
        most
    }
}

/// The first label is flush with the left edge of the plot and the last with
/// its right edge.
pub proof fn frequency_labels_sit_on_the_edges(width: int, len: int)
    requires
        frequency_marks(width, len) > 0,
    ensures
        label_start(0, width, frequency_marks(width, len), len) == 0,
        label_start(frequency_marks(width, len) - 1, width, frequency_marks(width, len), len) + len
            == width,
{
    let marks = frequency_marks(width, len);
    assert(0 * (width - 1) / (marks - 1) == 0) by (nonlinear_arith)
        requires
            marks >= 2,
    ;
    vstd::arithmetic::div_mod::lemma_div_multiples_vanish(width - 1, marks - 1);
}

/// Labels of the same length never touch: on a plot that has room for two of
/// them and a blank, there is a blank between any two neighbours.
pub proof fn frequency_labels_never_touch(width: int, len: int, j: int)
    requires
        0 <= j < frequency_marks(width, len) - 1,
        2 * len < width,
    ensures
        label_start(j, width, frequency_marks(width, len), len) + len < label_start(
            j + 1,
            width,
            frequency_marks(width, len),
            len,
        ),
{
    let marks = frequency_marks(width, len);
    let room = (width - 1) / spacing(len) + 1;
    vstd::arithmetic::div_mod::lemma_fundamental_div_mod(width - 1, spacing(len));
    assert((marks - 1) * spacing(len) <= width - 1) by (nonlinear_arith)
        requires
            marks <= room,
            room - 1 == (width - 1) / spacing(len),
            width - 1 == spacing(len) * ((width - 1) / spacing(len)) + (width - 1) % spacing(len),
            (width - 1) % spacing(len) >= 0,
            spacing(len) > 0,
    ;
    lemma_tick_step(j, width, marks, spacing(len));
    if j == 0 {
        frequency_labels_sit_on_the_edges(width, len);
    } else {
        lemma_tick_step(j - 1, width, marks, spacing(len));
    }
}

/// What the frequency axis amounts to.
pub open spec fn frequency_axis(area: Rect, labels: Seq<Seq<char>>) -> Seq<Stroke> {
    Seq::new(
        labels.len(),
        |j: int|
            Stroke::Line {
                text: labels[j],
                style: Style::ink(colors::LABEL),
                area: Rect::spec_new(
                    (area.x + label_start(
                        j,
                        area.width as int,
                        labels.len() as int,
                        labels[j].len() as int,
                    )) as u16,
                    area.y,
                    (if labels[j].len() < area.width {
                        labels[j].len() as int
                    } else {
                        area.width as int
                    }) as u16,
                    1,
                ),
            },
    )
}

/// The length of the longest label.
pub open spec fn longest(labels: Seq<String>) -> int
    decreases labels.len(),
{
    if labels.len() == 0 {
        0
    } else {
        let before = longest(labels.drop_last());
        if before < labels.last()@.len() {
            labels.last()@.len() as int
        } else {
            before
        }
    }
}

/// The length of the longest label.
pub fn widest(labels: &Vec<String>) -> (n: usize)
    ensures
        n == longest(labels@),
{
    let mut n: usize = 0;
    let mut i: usize = 0;
    while i < labels.len()
        invariant
            i <= labels@.len(),
            n == longest(labels@.take(i as int)),
        decreases labels@.len() - i,
    {
        let len: usize = labels[i].as_str().unicode_len();
        proof {
            assert(labels@.take(i + 1).drop_last() =~= labels@.take(i as int));
        }
        if n < len {
            n = len;
        }
        i += 1;
    }
    assert(labels@.take(i as int) =~= labels@);
    n
}

/// Draw the frequency axis on one row.
pub fn draw_mhz_axis(area: Rect, buf: &mut Screen, labels: &Vec<String>)
    requires
        whole(*old(buf)),
        labels@.len() == 0 || 2 <= labels@.len() <= MARKS,
        labels@.len() <= area.width,
        legible(labels@),
        area.x + area.width <= u16::MAX,
        margin(area, bounds(*old(buf))),
    ensures
        shows(*old(buf), *final(buf), frequency_axis(area, texts(labels@))),
{
    let ghost start = *buf;
    let ghost want = frequency_axis(area, texts(labels@));
    let shown: usize = labels.len();
    let width: usize = area.width as usize;
    let mut j: usize = 0;
    proof {
        lemma_fresh(start);
        assert(want.take(0) =~= Seq::<Stroke>::empty());
        if shown > 0 {
            marks_bound_the_axis(width as int, shown as int);
        }
    }
    while j < shown
        invariant
            j <= shown,
            shown == labels@.len(),
            shown == 0 || 2 <= shown <= 6,
            shown <= width,
            width == area.width,
            width <= u16::MAX,
            area.x + area.width <= u16::MAX,
            legible(labels@),
            margin(area, bounds(*buf)),
            shown > 0 ==> tick(shown - 1, width as int, shown as int) == width - 1,
            forall|j: int|
                0 <= j < shown - 1 ==> 0 <= #[trigger] tick(j, width as int, shown as int) <= width
                    - 1,
            whole(start),
            whole(*buf),
            want == frequency_axis(area, texts(labels@)),
            shows(start, *buf, want.take(j as int)),
        decreases shown - j,
    {
        assert(0 <= tick(j as int, width as int, shown as int) <= width - 1);
        assert(0 <= j * (width - 1) <= 6 * 65535) by (nonlinear_arith)
            requires
                0 <= j <= 6,
                1 <= width <= 65535,
        ;
        let at: usize = j * (width - 1) / (shown - 1);
        let len: usize = labels[j].as_str().unicode_len();
        let left: usize = at.saturating_sub(len / 2);
        let most: usize = width.saturating_sub(len);
        let x: usize = if left < most {
            left
        } else {
            most
        };
        let cut: usize = if len < width {
            len
        } else {
            width
        };
        let ghost before = *buf;
        draw_line(
            buf,
            labels[j].as_str(),
            Style::new().fg(colors::LABEL),
            Rect::new(area.x + x as u16, area.y, cut as u16, 1),
        );
        proof {
            let stroke = want[j as int];
            lemma_next(start, before, *buf, want.take(j as int), stroke);
            assert(want.take(j as int).push(stroke) =~= want.take(j + 1));
        }
        j += 1;
    }
    assert(want.take(shown as int) =~= want);
}

} // verus!
