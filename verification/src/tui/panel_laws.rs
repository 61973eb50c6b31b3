//! What stands where on the panels of the left column and on the bottom bar.

use vstd::prelude::*;

use crate::log::{spec_stamp, Entry};
use crate::text::{always_signed, decimal, signed_decimal, tenths};
use crate::tui::colors;
use crate::tui::control_panel::{
    content_of, items, list_strokes, panel_strokes, row_strokes, Item,
};
use crate::tui::control_view::{ControlViewState, Field, Reading};
use crate::tui::info_view::{
    info_laid_out, info_panel, info_strokes, row_heights, InfoReading, InfoView,
};
use crate::tui::log_view::log_panel;
use crate::tui::paint::{
    area_backs, claimed, color_code, drawn, edge, fits, lemma_drawn_add, row_backs, taken, CellView,
    Constraint, Rect, Stroke, Style,
};
use crate::tui::screen::{scrolled, status_at};
use crate::tui::status_bar::{bar_strokes, hint_spans};
use crate::tui::tui::{Status, TuiView};
use crate::tui::tui_states::{Pane, TuiStates};

verus! {

/// The smaller of two numbers.
pub open spec fn least(a: int, b: int) -> int {
    if a < b {
        a
    } else {
        b
    }
}

/// A border takes one column or row off each side.
pub proof fn border_takes_one_off_each_side(r: Rect)
    requires
        r.width >= 2,
        r.height >= 2,
        r.x + r.width <= u16::MAX,
        r.y + r.height <= u16::MAX,
    ensures
        r.spec_inner().x == r.x + 1,
        r.spec_inner().y == r.y + 1,
        r.spec_inner().width == r.width - 2,
        r.spec_inner().height == r.height - 2,
        r.spec_right() == r.x + r.width,
        r.spec_bottom() == r.y + r.height,
{
}

/// An area without room inside its border has nothing inside.
pub proof fn small_area_has_no_inside(r: Rect)
    requires
        r.width <= 2 || r.height <= 2,
    ensures
        r.spec_inner().spec_is_empty(),
{
}

proof fn lemma_row_backs(
    screen: Map<(u16, u16), CellView>,
    frame: Rect,
    x: int,
    end: int,
    y: u16,
    bg: (u8, u8, u8),
    p: (u16, u16),
)
    requires
        0 <= x <= end <= u16::MAX,
    ensures
        ({
            let after = drawn(screen, frame, row_backs(x, end, y, bg));
            &&& after.dom() =~= screen.dom()
            &&& screen.contains_key(p) && p.1 == y && x <= p.0 < end ==> after[p] == (CellView {
                bg: color_code(bg),
                ..screen[p]
            })
            &&& !(p.1 == y && x <= p.0 < end) ==> after[p] == screen[p]
        }),
    decreases end - x,
{
    let strokes = row_backs(x, end, y, bg);
    if x < end {
        lemma_row_backs(screen, frame, x, end - 1, y, bg, p);
        assert(strokes.drop_last() =~= row_backs(x, end - 1, y, bg));
        assert(strokes.last() == Stroke::Back { x: (end - 1) as u16, y, bg });
    }
}

proof fn lemma_area_backs(
    screen: Map<(u16, u16), CellView>,
    frame: Rect,
    area: Rect,
    rows: nat,
    bg: (u8, u8, u8),
    p: (u16, u16),
)
    requires
        area.y + rows <= area.spec_bottom(),
    ensures
        ({
            let after = drawn(screen, frame, area_backs(area, rows, bg));
            let inside = area.x <= p.0 < area.spec_right() && area.y <= p.1 < area.y + rows;
            &&& after.dom() =~= screen.dom()
            &&& screen.contains_key(p) && inside ==> after[p] == (CellView {
                bg: color_code(bg),
                ..screen[p]
            })
            &&& !inside ==> after[p] == screen[p]
        }),
    decreases rows,
{
    if rows > 0 {
        let above = area_backs(area, (rows - 1) as nat, bg);
        let y = (area.y + rows - 1) as u16;
        let row = row_backs(area.x as int, area.spec_right() as int, y, bg);
        lemma_area_backs(screen, frame, area, (rows - 1) as nat, bg, p);
        lemma_drawn_add(screen, frame, above, row);
        lemma_row_backs(
            drawn(screen, frame, above),
            frame,
            area.x as int,
            area.spec_right() as int,
            y,
            bg,
            p,
        );
    }
}

/// An area that is lifted off its ground has the new background in each of its cells
/// and its text as before; no other cell changes.
pub proof fn lifted_area_keeps_its_text(
    screen: Map<(u16, u16), CellView>,
    frame: Rect,
    area: Rect,
    bg: (u8, u8, u8),
    p: (u16, u16),
)
    requires
        screen.contains_key(p),
        area.x + area.width <= u16::MAX,
        area.y + area.height <= u16::MAX,
    ensures
        ({
            let after = drawn(
                screen,
                frame,
                area_backs(area, (area.spec_bottom() - area.y) as nat, bg),
            );
            let inside = area.x <= p.0 < area.x + area.width && area.y <= p.1 < area.y
                + area.height;
            &&& after.contains_key(p)
            &&& inside ==> after[p] == (CellView {
                bg: 65536 * bg.0 + 256 * bg.1 + bg.2,
                ..screen[p]
            })
            &&& !inside ==> after[p] == screen[p]
        }),
{
    lemma_area_backs(screen, frame, area, (area.spec_bottom() - area.y) as nat, bg, p);
}

/// The log fills its panel from the top with one line a row, oldest first; with all of
/// it that there is room for, it ends `scroll` lines short of the newest, or as many
/// as there are above the panel.
pub proof fn log_lines_are_stacked(
    area: Rect,
    focused: bool,
    lines: Seq<Entry>,
    opened: u64,
    scroll: int,
    i: int,
)
    requires
        area.width > 2,
        area.height > 2,
        area.x + area.width <= u16::MAX,
        area.y + area.height <= u16::MAX,
        scroll >= 0,
        0 <= i < least(lines.len() as int, area.height - 2),
    ensures
        ({
            let panel = log_panel(area, focused, lines, opened, scroll);
            let shown = least(lines.len() as int, area.height - 2);
            let back = least(scroll, lines.len() - shown);
            let e = lines[lines.len() - back - shown + i];
            &&& panel.len() == 1 + shown
            &&& panel[0] == (Stroke::Block { title: "Log"@, chrome: colors::card(focused), area })
            &&& panel[1 + i] is Spans
            &&& panel[1 + i]->Spans_area == (Rect {
                x: (area.x + 1) as u16,
                y: (area.y + 1 + i) as u16,
                width: (area.width - 2) as u16,
                height: 1,
            })
            &&& panel[1 + i]->Spans_spans.len() == 2
            &&& panel[1 + i]->Spans_spans[0].0 == spec_stamp(e.at, opened)
            &&& panel[1 + i]->Spans_spans[0].1 == Style::ink(colors::LOG_TIME)
            &&& panel[1 + i]->Spans_spans[1].0 == e.text@
            &&& e.level is Info ==> panel[1 + i]->Spans_spans[1].1 == (Style {
                fg: Some(colors::LOG_INFO),
                bg: None,
                modifiers: 0,
            })
            &&& e.level is Warn ==> panel[1 + i]->Spans_spans[1].1 == (Style {
                fg: Some(colors::LOG_WARN),
                bg: None,
                modifiers: 0,
            })
            &&& e.level is Error ==> panel[1 + i]->Spans_spans[1].1 == (Style {
                fg: Some(colors::LOG_ERROR_FG),
                bg: Some(colors::LOG_ERROR_BG),
                modifiers: 0,
            })
        }),
{
}

/// Once the log has been drawn, its counter is no further back than there are lines
/// above the panel, and no other setting has changed.
pub proof fn log_scrolls_no_further_than_it_can(s: TuiStates, area: Rect, lines: int)
    requires
        0 <= lines <= usize::MAX,
    ensures
        ({
            let t = scrolled(s, area, lines);
            &&& t == (TuiStates { log_scroll: t.log_scroll, ..s })
            &&& area.width <= 2 || area.height <= 2 ==> t.log_scroll == 0
            &&& area.width > 2 && area.height > 2 ==> t.log_scroll == least(
                s.log_scroll as int,
                lines - least(lines, area.height - 2),
            )
        }),
{
}

proof fn lemma_info_rows(n: nat, columns: Seq<Seq<Rect>>, values: Seq<Seq<char>>, i: int)
    requires
        0 <= i < n,
    ensures
        info_strokes(n, columns, values).len() == 2 * n,
        info_strokes(n, columns, values)[2 * i] == info_strokes((i + 1) as nat, columns, values)[2
            * i],
        info_strokes(n, columns, values)[2 * i + 1] == info_strokes(
            (i + 1) as nat,
            columns,
            values,
        )[2 * i + 1],
        info_strokes((i + 1) as nat, columns, values).len() == 2 * i + 2,
    decreases n,
{
    if n > i + 1 {
        lemma_info_rows((n - 1) as nat, columns, values, i);
    } else {
        lemma_info_len(n, columns, values);
    }
}

proof fn lemma_info_len(n: nat, columns: Seq<Seq<Rect>>, values: Seq<Seq<char>>)
    ensures
        info_strokes(n, columns, values).len() == 2 * n,
    decreases n,
{
    if n > 0 {
        lemma_info_len((n - 1) as nat, columns, values);
    }
}

proof fn lemma_seven_rows(extent: int, i: int)
    requires
        extent >= 7,
        0 <= i <= 7,
    ensures
        fits(row_heights(), extent),
        edge(row_heights(), extent, i) == i,
{
    let cs = row_heights();
    assert(claimed(cs, extent) == 700) by {
        reveal_with_fuel(claimed, 8);
    }
    lemma_ones(cs, extent, i);
}

proof fn lemma_ones(cs: Seq<Constraint>, extent: int, i: int)
    requires
        0 <= i <= cs.len(),
        forall|k: int| 0 <= k < cs.len() ==> cs[k] == Constraint::Length(1),
    ensures
        taken(cs, extent, i) == 100 * i,
    decreases i,
{
    if i > 0 {
        lemma_ones(cs, extent, i - 1);
    }
}

/// Row `i` of the Info panel has its label at the left and its value at the right of
/// row `i` inside the frame, where there is room for all seven.
pub proof fn info_rows_are_stacked(
    area: Rect,
    rows: Seq<Rect>,
    columns: Seq<Seq<Rect>>,
    values: Seq<Seq<char>>,
    i: int,
)
    requires
        0 <= i < 7,
        info_laid_out(area.spec_inner(), rows, columns),
    ensures
        ({
            let panel = info_panel(area, columns, values);
            let a = columns[i][0];
            let b = columns[i][1];
            &&& panel.len() == 15
            &&& panel[0] == (Stroke::Block { title: "Info"@, chrome: colors::card(false), area })
            &&& panel[1 + 2 * i] == (Stroke::Line {
                text: if i == 0 {
                    "Rate"@
                } else if i == 1 {
                    "Audio"@
                } else if i == 2 {
                    "LO"@
                } else if i == 3 {
                    "RSSI"@
                } else if i == 4 {
                    "SNR"@
                } else if i == 5 {
                    "Drop/lap"@
                } else {
                    "Underrun"@
                },
                style: Style { fg: Some(colors::LABEL), bg: None, modifiers: 0 },
                area: a,
            })
            &&& panel[2 + 2 * i] == (Stroke::RightLine {
                text: values[i],
                style: Style { fg: Some(colors::TEXT), bg: None, modifiers: 0 },
                area: b,
            })
            &&& a.y == b.y
            &&& b.x == a.x + a.width
            &&& area.height >= 9 && area.width > 2 && area.x + area.width <= u16::MAX && area.y
                + area.height <= u16::MAX ==> {
                &&& a.x == area.x + 1
                &&& a.y == area.y + 1 + i
                &&& a.height == 1 && b.height == 1
                &&& area.width >= 11 ==> a.width == 9 && b.width == area.width - 11
            }
        }),
{
    let inner = area.spec_inner();
    lemma_info_rows(7, columns, values, i);
    let h = inner.spec_bottom() - inner.y;
    assert(columns[i].len() == 2);
    if area.height >= 9 && area.width > 2 && area.x + area.width <= u16::MAX && area.y
        + area.height <= u16::MAX {
        lemma_seven_rows(h, i);
        lemma_seven_rows(h, i + 1);
        assert(rows[i].y == area.y + 1 + i);
        if area.width >= 11 {
            crate::tui::paint::lemma_two_parts(9, 1, rows[i].spec_right() - rows[i].x);
        }
    }
}

/// What each row of the Info panel reports: the rates, the LO 350 kHz below the
/// station, and the counters; a level that was never written is none.
pub proof fn info_rows_show_the_radio(v: InfoView)
    ensures
        v.spec_reading(0) == InfoReading::MegaSamples(v.sample_rate),
        v.spec_reading(1) is Khz,
        1000 * v.spec_reading(1)->Khz_0 <= v.audio_rate < 1000 * v.spec_reading(1)->Khz_0 + 1000,
        v.center_freq >= 350_000 ==> v.spec_reading(2) == InfoReading::Mhz(
            (v.center_freq - 350_000) as u32,
        ),
        v.center_freq < 350_000 ==> v.spec_reading(2) == InfoReading::Mhz(0),
        v.health.rssi_dbfs_x10 == i32::MIN ==> v.spec_reading(3) == InfoReading::Dbfs(None),
        v.health.rssi_dbfs_x10 != i32::MIN ==> v.spec_reading(3) == InfoReading::Dbfs(
            Some(v.health.rssi_dbfs_x10),
        ),
        v.health.snr_db_x10 == i32::MIN ==> v.spec_reading(4) == InfoReading::Db(None),
        v.health.snr_db_x10 != i32::MIN ==> v.spec_reading(4) == InfoReading::Db(
            Some(v.health.snr_db_x10),
        ),
        v.spec_reading(5) == InfoReading::Pair(v.health.iq_drops, v.health.iq_laps),
        v.spec_reading(6) == InfoReading::Count(v.health.underruns),
{
}

/// How the readings of the Info panel read: the number, and its unit behind it.
pub proof fn info_readings_have_their_units(khz: u32, t: i32, a: u64, b: u64)
    ensures
        InfoReading::Khz(khz).spec_text() == Some(decimal(khz as nat) + seq![' ', 'k', 'H', 'z']),
        InfoReading::Dbfs(Some(t)).spec_text() == Some(
            tenths(t as int) + seq![' ', 'd', 'B', 'F', 'S'],
        ),
        InfoReading::Db(Some(t)).spec_text() == Some(tenths(t as int) + seq![' ', 'd', 'B']),
        InfoReading::Dbfs(None).spec_text() == Some(seq!['\u{2014}']),
        InfoReading::Db(None).spec_text() == Some(seq!['\u{2014}']),
        InfoReading::Pair(a, b).spec_text() == Some(
            decimal(a as nat) + seq![' ', '/', ' '] + decimal(b as nat),
        ),
        InfoReading::Count(a).spec_text() == Some(decimal(a as nat)),
        InfoReading::MegaSamples(khz).spec_text() is None,
        InfoReading::Mhz(khz).spec_text() is None,
{
    reveal_strlit(" kHz");
    reveal_strlit(" dBFS");
    reveal_strlit(" dB");
    reveal_strlit(" / ");
    reveal_strlit("\u{2014}");
    assert(" kHz"@ =~= seq![' ', 'k', 'H', 'z']);
    assert(" dBFS"@ =~= seq![' ', 'd', 'B', 'F', 'S']);
    assert(" dB"@ =~= seq![' ', 'd', 'B']);
    assert(" / "@ =~= seq![' ', '/', ' ']);
    assert("\u{2014}"@ =~= seq!['\u{2014}']);
}

/// How the readings of the Control panel read.
pub proof fn control_readings_have_their_units(n: u32, t: i32)
    ensures
        Reading::Hz(n).spec_text() == if n < 1_000 {
            Some(decimal(n as nat) + seq![' ', 'H', 'z'])
        } else {
            None
        },
        Reading::Mhz(n).spec_text() is None,
        Reading::TenthsDb(t).spec_text() == Some(tenths(t as int) + seq![' ', 'd', 'B']),
        Reading::Switch(true).spec_text() == Some(seq!['o', 'n']),
        Reading::Switch(false).spec_text() == Some(seq!['o', 'f', 'f']),
        Reading::Ppm(t).spec_text() == Some(always_signed(t as int)),
        Reading::Plain(n).spec_text() == Some(decimal(n as nat)),
        Reading::Micros(n).spec_text() == Some(decimal(n as nat) + seq![' ', '\u{b5}', 's']),
        Reading::Db(t).spec_text() == Some(signed_decimal(t as int) + seq![' ', 'd', 'B']),
{
    reveal_strlit(" Hz");
    reveal_strlit(" dB");
    reveal_strlit("on");
    reveal_strlit("off");
    reveal_strlit(" \u{b5}s");
    assert(" Hz"@ =~= seq![' ', 'H', 'z']);
    assert(" dB"@ =~= seq![' ', 'd', 'B']);
    assert("on"@ =~= seq!['o', 'n']);
    assert("off"@ =~= seq!['o', 'f', 'f']);
    assert(" \u{b5}s"@ =~= seq![' ', '\u{b5}', 's']);
}

/// The lines of the Control panel from the top: each of the three headers and below it
/// the rows of its section.
pub proof fn control_lines_are_in_order()
    ensures
        items(13) == seq![
            Item::Header(Field::Mode),
            Item::Row(0),
            Item::Row(1),
            Item::Row(2),
            Item::Row(3),
            Item::Row(4),
            Item::Row(5),
            Item::Row(6),
            Item::Row(7),
            Item::Header(Field::Volume),
            Item::Row(8),
            Item::Row(9),
            Item::Row(10),
            Item::Header(Field::Floor),
            Item::Row(11),
            Item::Row(12),
        ],
        Field::Mode.spec_section() == Some("RADIO"@),
        Field::Volume.spec_section() == Some("AUDIO"@),
        Field::Floor.spec_section() == Some("DISPLAY"@),
{
    reveal_with_fuel(items, 14);
    assert(items(13) =~= seq![
        Item::Header(Field::Mode),
        Item::Row(0),
        Item::Row(1),
        Item::Row(2),
        Item::Row(3),
        Item::Row(4),
        Item::Row(5),
        Item::Row(6),
        Item::Row(7),
        Item::Header(Field::Volume),
        Item::Row(8),
        Item::Row(9),
        Item::Row(10),
        Item::Header(Field::Floor),
        Item::Row(11),
        Item::Row(12),
    ]);
}

/// A row of the Control panel: its label in the second column and its value at the
/// right of the third. Under the cursor the row is lifted first, a marker stands in
/// the first column, and the row is in the accent; a value without effect is struck
/// through.
pub proof fn control_row_shows_label_and_value(
    area: Rect,
    parts: Seq<Rect>,
    f: Field,
    focused: bool,
    inert: bool,
    value: Seq<char>,
)
    ensures
        ({
            let s = row_strokes(area, parts, f, focused, inert, value);
            let n = s.len() as int;
            &&& n >= 2
            &&& s[n - 2] is Line && s[n - 2]->Line_text == f.spec_label() && s[n - 2]->Line_area
                == parts[1]
            &&& s[n - 2]->Line_style == (Style {
                fg: Some(if focused { colors::ORANGE_BASE } else { colors::CYAN_BASE }),
                bg: None,
                modifiers: 0,
            })
            &&& s[n - 1] is RightLine && s[n - 1]->RightLine_text == value
                && s[n - 1]->RightLine_area == parts[2]
            &&& s[n - 1]->RightLine_style.bg is None
            &&& inert ==> s[n - 1]->RightLine_style.fg == Some(colors::GREY_MID)
            &&& !inert && focused ==> s[n - 1]->RightLine_style.fg == Some(colors::ORANGE_GLOW)
            &&& !inert && !focused ==> s[n - 1]->RightLine_style.fg == Some(colors::WHITE_DIM)
            &&& s[n - 1]->RightLine_style.modifiers == (if focused { 1int } else { 0 }) + (
            if inert { 256int } else { 0 })
            &&& !focused ==> n == 2
            &&& focused ==> n >= 3 && s.take(n - 3) == area_backs(
                area,
                (area.spec_bottom() - area.y) as nat,
                colors::BG_ELEVATED,
            )
            &&& focused ==> s[n - 3] is Line && s[n - 3]->Line_text == "\u{25b8}"@
                && s[n - 3]->Line_area == parts[0] && s[n - 3]->Line_style == (Style {
                fg: Some(colors::ORANGE_GLOW),
                bg: None,
                modifiers: 0,
            })
        }),
{
    let s = row_strokes(area, parts, f, focused, inert, value);
    if focused {
        assert(s.take(s.len() - 3) =~= area_backs(
            area,
            (area.spec_bottom() - area.y) as nat,
            colors::BG_ELEVATED,
        ));
    }
}

/// What the first `k` lines of the panel are drawn with, the next is drawn with too,
/// and with its own strokes behind them, on the row below: a header in bold, or the
/// row's setting, with the cursor only where the pane has the focus.
pub proof fn control_lines_are_stacked(
    view: ControlViewState,
    states: TuiStates,
    values: Seq<String>,
    focused: bool,
    inner: Rect,
    columns: Seq<Seq<Rect>>,
    k: int,
)
    requires
        0 <= k < 16,
        values.len() == 13,
        inner.x + inner.width <= u16::MAX,
        inner.y + k < u16::MAX,
    ensures
        ({
            let content = content_of(view, states, values, focused);
            let above = list_strokes(items(13), k as nat, inner, content, columns);
            let s = list_strokes(items(13), (k + 1) as nat, inner, content, columns);
            let area = Rect {
                x: inner.x,
                y: (inner.y + k) as u16,
                width: inner.width,
                height: 1,
            };
            &&& items(13)[k] matches Item::Header(f) ==> s == above.push(
                Stroke::Line {
                    text: f.spec_section()->0,
                    style: Style { fg: Some(colors::SECTION), bg: None, modifiers: 1 },
                    area,
                },
            )
            &&& items(13)[k] matches Item::Row(i) ==> s == above + row_strokes(
                area,
                columns[i],
                Field::ALL@[i],
                focused && view.selected == i,
                Field::ALL@[i].spec_inert(states),
                values[i]@,
            )
        }),
        list_strokes(
            items(13),
            0,
            inner,
            content_of(view, states, values, focused),
            columns,
        ) == Seq::<Stroke>::empty(),
{
    control_lines_are_in_order();
    let content = content_of(view, states, values, focused);
    let above = list_strokes(items(13), k as nat, inner, content, columns);
    let s = list_strokes(items(13), (k + 1) as nat, inner, content, columns);
    if let Item::Header(f) = items(13)[k] {
        let area = Rect { x: inner.x, y: (inner.y + k) as u16, width: inner.width, height: 1 };
        let stroke = Stroke::Line {
            text: f.spec_section()->0,
            style: Style { fg: Some(colors::SECTION), bg: None, modifiers: 1 },
            area,
        };
        assert(s =~= above.push(stroke));
    }
}

/// The Control panel is its frame and its lines from the top, as many of the sixteen as
/// there is room for.
pub proof fn control_panel_is_cut_off_at_the_bottom(
    view: ControlViewState,
    states: TuiStates,
    values: Seq<String>,
    focused: bool,
    area: Rect,
    columns: Seq<Seq<Rect>>,
)
    requires
        area.x + area.width <= u16::MAX,
        area.y + area.height <= u16::MAX,
    ensures
        ({
            let content = content_of(view, states, values, focused);
            let shown = if area.width <= 2 || area.height <= 2 {
                0
            } else {
                least(16, area.height - 2)
            };
            panel_strokes(area, focused, content, columns) == seq![
                Stroke::Block { title: "Control"@, chrome: colors::card(focused), area },
            ] + list_strokes(items(13), shown as nat, area.spec_inner(), content, columns)
        }),
{
    control_lines_are_in_order();
}

/// A piece of the bottom bar's hints.
pub open spec fn hint(
    spans: Seq<(Seq<char>, Style)>,
    i: int,
    key: Seq<char>,
    what: Seq<char>,
) -> bool {
    &&& spans[1 + 2 * i].0 == key
    &&& spans[1 + 2 * i].1 == (Style { fg: Some(colors::HINT_KEY), bg: None, modifiers: 1 })
    &&& spans[2 + 2 * i].0 == " "@ + what + "   "@
    &&& spans[2 + 2 * i].1 == (Style { fg: Some(colors::HINT_TEXT), bg: None, modifiers: 0 })
}

/// The bar shows the message behind a blank where there is one, and otherwise the keys
/// of the pane that has the focus, in this order.
pub proof fn bar_shows_the_message_or_the_keys(area: Rect, pane: Pane, msg: Seq<char>)
    requires
        area.width > 0,
        area.height > 0,
    ensures
        ({
            let s = bar_strokes(area, pane, Some(msg));
            &&& s.len() == 1
            &&& s[0] is Line
            &&& s[0]->Line_text == seq![' '] + msg
            &&& s[0]->Line_area == area
            &&& s[0]->Line_style == (Style {
                fg: Some(colors::STATUS_FG),
                bg: Some(colors::STATUS_BG),
                modifiers: 0,
            })
        }),
        ({
            let s = bar_strokes(area, pane, None);
            let spans = s[0]->Spans_spans;
            &&& s.len() == 1
            &&& s[0] is Spans
            &&& s[0]->Spans_area == area
            &&& spans[0].0 == " "@
            &&& pane is Control ==> {
                &&& spans.len() == 13
                &&& hint(spans, 0, "\u{2191}\u{2193}"@, "field"@)
                &&& hint(spans, 1, "\u{2190}\u{2192}"@, "adjust"@)
                &&& hint(spans, 2, "[ ]"@, "floor"@)
                &&& hint(spans, 3, "m"@, "mute"@)
                &&& hint(spans, 4, "tab"@, "pane"@)
                &&& hint(spans, 5, "q"@, "quit"@)
            }
            &&& pane is Log ==> {
                &&& spans.len() == 9
                &&& hint(spans, 0, "\u{2191}\u{2193}"@, "scroll"@)
                &&& hint(spans, 1, "g"@, "tail"@)
                &&& hint(spans, 2, "tab"@, "pane"@)
                &&& hint(spans, 3, "q"@, "quit"@)
            }
        }),
{
    reveal_strlit(" ");
    assert(" "@ =~= seq![' ']);
    reveal_with_fuel(hint_spans, 7);
}

/// A message stays for three seconds and no longer.
pub proof fn message_stays_three_seconds(t: TuiView, text: Seq<char>, at: u64, now: u64)
    requires
        t.status == Some((text, at)),
    ensures
        now < at + 3_000 ==> status_at(t, now) == Some(text),
        now >= at + 3_000 ==> status_at(t, now) is None,
        status_at(TuiView { status: None, ..t }, now) is None,
{
}

/// What the bar is to say of a key: the row and its new value, the new floor, or
/// whether the sound is off.
pub proof fn messages_say_what_changed(f: Field, r: Reading, db: i32, value: Seq<char>)
    ensures
        Status::Field(f, r).spec_text(value) == f.spec_label() + seq![' ', ' '] + value,
        Status::Floor(db).spec_text(value) == seq!['F', 'l', 'o', 'o', 'r', ' ', ' ']
            + signed_decimal(db as int) + seq![' ', 'd', 'B'],
        Status::Muted(true).spec_text(value) == seq!['M', 'u', 't', 'e', 'd'],
        Status::Muted(false).spec_text(value) == seq!['U', 'n', 'm', 'u', 't', 'e', 'd'],
{
    reveal_strlit("  ");
    reveal_strlit("Floor  ");
    reveal_strlit(" dB");
    reveal_strlit("Muted");
    reveal_strlit("Unmuted");
    assert("  "@ =~= seq![' ', ' ']);
    assert("Floor  "@ =~= seq!['F', 'l', 'o', 'o', 'r', ' ', ' ']);
    assert(" dB"@ =~= seq![' ', 'd', 'B']);
    assert("Muted"@ =~= seq!['M', 'u', 't', 'e', 'd']);
    assert("Unmuted"@ =~= seq!['U', 'n', 'm', 'u', 't', 'e', 'd']);
}

} // verus!
