//! How the Control panel is drawn.

use ratatui::buffer::Buffer as Screen;
use vstd::prelude::*;

use crate::tui::colors;
use crate::tui::control_view::{ControlView, ControlViewState, Field, Reading};
use crate::tui::paint::{
    area_backs, bounds, cells, draw_block, draw_line, draw_right_line, drawable, lemma_fresh, lemma_more,
    lemma_next, lemma_stays_whole, lift, margin, same_frame, shows, side_by_side,
    split_horizontal, stroked, whole, words_everything, Constraint, Rect, Stroke, Style, BOLD,
    BOLD_CROSSED_OUT, CROSSED_OUT,
};
use crate::tui::tui_states::TuiStates;

verus! {

/// Rows this panel needs: every field, three section headers and the border.
pub const HEIGHT: u16 = 18;

/// The columns of a row: marker, label and value.
pub open spec fn columns() -> Seq<Constraint> {
    seq![Constraint::Length(2), Constraint::Length(8), Constraint::Fill(1)]
}

/// How the label of a row is drawn.
pub open spec fn label_style(focused: bool) -> Style {
    Style::ink(
        if focused {
            colors::FOCUS
        } else {
            colors::LABEL
        },
    )
}

/// How the value of a row is drawn: struck through where it does nothing.
pub open spec fn value_style(focused: bool, inert: bool) -> Style {
    Style {
        fg: Some(
            if inert {
                colors::INERT
            } else if focused {
                colors::FOCUS_BRIGHT
            } else {
                colors::TEXT
            },
        ),
        bg: None,
        modifiers: if focused && inert {
            BOLD_CROSSED_OUT
        } else if focused {
            BOLD
        } else if inert {
            CROSSED_OUT
        } else {
            0
        },
    }
}

/// What drawing a row amounts to: the focused one is lifted across its full
/// width before anything is written on it.
pub open spec fn row_strokes(
    area: Rect,
    parts: Seq<Rect>,
    field: Field,
    focused: bool,
    inert: bool,
    value: Seq<char>,
) -> Seq<Stroke> {
    let lifted = if focused {
        area_backs(area, (area.spec_bottom() - area.y) as nat, colors::BG_SELECTED).push(
            Stroke::Line {
                text: "\u{25b8}"@,
                style: Style::ink(colors::FOCUS_BRIGHT),
                area: parts[0],
            },
        )
    } else {
        Seq::empty()
    };
    lifted.push(
        Stroke::Line { text: field.spec_label(), style: label_style(focused), area: parts[1] },
    ).push(
        Stroke::RightLine { text: value, style: value_style(focused, inert), area: parts[2] },
    )
}

/// Draw a row whose columns have been laid out.
pub fn paint_row(
    buf: &mut Screen,
    area: Rect,
    marker: Rect,
    label: Rect,
    value: Rect,
    field: Field,
    focused: bool,
    inert: bool,
    text: &str,
)
    requires
        whole(*old(buf)),
        margin(marker, bounds(*old(buf))),
        margin(label, bounds(*old(buf))),
        margin(value, bounds(*old(buf))),
        drawable(text@),
    ensures
        shows(
            *old(buf),
            *final(buf),
            row_strokes(area, seq![marker, label, value], field, focused, inert, text@),
        ),
{
    let ghost start = *buf;
    let ghost mut done: Seq<Stroke> = Seq::empty();
    proof {
        lemma_fresh(start);
        field.lemma_names_are_brief();
        reveal_strlit("\u{25b8}");
    }
    if focused {
        lift(buf, area, colors::BG_SELECTED);
        let ghost lifted = *buf;
        proof {
            done = area_backs(
                area,
                (area.spec_bottom() - area.y) as nat,
                colors::BG_SELECTED,
            );
            lemma_stays_whole(start, lifted);
        }
        draw_line(buf, "\u{25b8}", Style::new().fg(colors::FOCUS_BRIGHT), marker);
        proof {
            let stroke = Stroke::Line {
                text: "\u{25b8}"@,
                style: Style::ink(colors::FOCUS_BRIGHT),
                area: marker,
            };
            lemma_next(start, lifted, *buf, done, stroke);
            done = done.push(stroke);
        }
    }
    let ghost before_label = *buf;
    let ink = Style::new().fg(
        if focused {
            colors::FOCUS
        } else {
            colors::LABEL
        },
    );
    draw_line(buf, field.label(), ink, label);
    let ghost before_value = *buf;
    proof {
        let stroke = Stroke::Line {
            text: field.spec_label(),
            style: label_style(focused),
            area: label,
        };
        lemma_next(start, before_label, before_value, done, stroke);
        done = done.push(stroke);
    }
    let style = Style {
        fg: Some(
            if inert {
                colors::INERT
            } else if focused {
                colors::FOCUS_BRIGHT
            } else {
                colors::TEXT
            },
        ),
        bg: None,
        modifiers: if focused && inert {
            BOLD_CROSSED_OUT
        } else if focused {
            BOLD
        } else if inert {
            CROSSED_OUT
        } else {
            0
        },
    };
    draw_right_line(buf, text, style, value);
    proof {
        let stroke = Stroke::RightLine {
            text: text@,
            style: value_style(focused, inert),
            area: value,
        };
        lemma_next(start, before_value, *buf, done, stroke);
    }
}

/// Draw a row: the field's value in words.
pub fn render_row<F: Fn(Reading) -> String>(
    buf: &mut Screen,
    area: Rect,
    field: Field,
    focused: bool,
    states: &TuiStates,
    other: &F,
)
    requires
        whole(*old(buf)),
        margin(area, bounds(*old(buf))),
        words_everything(*other),
    ensures
        exists|parts: Seq<Rect>, value: String|
            side_by_side(area, columns(), parts) && #[trigger] field.spec_value(*states).reads(
                *other,
                value,
            ) && #[trigger] shows(
                *old(buf),
                *final(buf),
                row_strokes(area, parts, field, focused, field.spec_inert(*states), value@),
            ),
{
    let value = field.value(states).words(other);
    render_text(buf, area, field, focused, states, value.as_str());
}

/// Draw a row with this text for its value.
fn render_text(
    buf: &mut Screen,
    area: Rect,
    field: Field,
    focused: bool,
    states: &TuiStates,
    text: &str,
)
    requires
        whole(*old(buf)),
        margin(area, bounds(*old(buf))),
        drawable(text@),
    ensures
        exists|parts: Seq<Rect>|
            side_by_side(area, columns(), parts) && #[trigger] shows(
                *old(buf),
                *final(buf),
                row_strokes(area, parts, field, focused, field.spec_inert(*states), text@),
            ),
{
    let mut cs: Vec<Constraint> = Vec::new();
    cs.push(Constraint::Length(2));
    cs.push(Constraint::Length(8));
    cs.push(Constraint::Fill(1));
    assert(cs@ =~= columns());
    let parts = split_horizontal(area, &cs);
    let inert = field.inert(states);
    paint_row(buf, area, parts[0], parts[1], parts[2], field, focused, inert, text);
    assert(parts@ =~= seq![parts@[0], parts@[1], parts@[2]]);
}

/// A line of the panel: the header above a field, or the field in that place.
pub enum Item {
    Header(Field),
    Row(int),
}

/// The lines of the panel up to and with the `n`th field.
pub open spec fn items(n: nat) -> Seq<Item>
    decreases n,
{
    if n == 0 {
        Seq::empty()
    } else {
        let f = Field::ALL@[n - 1];
        let above = items((n - 1) as nat);
        let header = if f.spec_section() is Some {
            above.push(Item::Header(f))
        } else {
            above
        };
        header.push(Item::Row(n - 1))
    }
}

/// Line `k` of the panel's inside.
pub open spec fn line_area(inner: Rect, k: int) -> Rect {
    Rect::spec_new(inner.x, (inner.y + k) as u16, inner.width, 1)
}

/// What the panel shows: the settings, their values in words, and the cursor,
/// where the pane has the focus.
pub struct Content {
    pub states: TuiStates,
    pub values: Seq<Seq<char>>,
    pub cursor: Option<int>,
}

/// What drawing a line of the panel amounts to.
pub open spec fn item_strokes(
    item: Item,
    area: Rect,
    content: Content,
    columns: Seq<Seq<Rect>>,
) -> Seq<Stroke> {
    match item {
        Item::Header(f) => seq![
            Stroke::Line {
                text: f.spec_section()->0,
                style: Style { modifiers: BOLD, ..Style::ink(colors::SECTION) },
                area,
            },
        ],
        Item::Row(i) => {
            let f = Field::ALL@[i];
            row_strokes(
                area,
                columns[i],
                f,
                content.cursor == Some(i),
                f.spec_inert(content.states),
                content.values[i],
            )
        },
    }
}

/// What drawing the first `k` lines amounts to.
pub open spec fn list_strokes(
    lines: Seq<Item>,
    k: nat,
    inner: Rect,
    content: Content,
    columns: Seq<Seq<Rect>>,
) -> Seq<Stroke>
    decreases k,
{
    if k == 0 {
        Seq::empty()
    } else {
        list_strokes(lines, (k - 1) as nat, inner, content, columns) + item_strokes(
            lines[k - 1],
            line_area(inner, k - 1),
            content,
            columns,
        )
    }
}

/// How many lines of the panel its inside has room for. A pane too short clips
/// from the bottom.
pub open spec fn lines_shown(inner: Rect) -> nat {
    let room = inner.spec_bottom() - inner.y;
    if inner.spec_is_empty() {
        0
    } else if room < items(13).len() {
        room as nat
    } else {
        items(13).len()
    }
}

/// The columns of every row that is shown lie in that row.
pub open spec fn laid_out(inner: Rect, shown: nat, columns: Seq<Seq<Rect>>) -> bool {
    forall|k: int|
        0 <= k < shown ==> (#[trigger] items(13)[k] matches Item::Row(i) ==> side_by_side(
            line_area(inner, k),
            self::columns(),
            columns[i],
        ))
}

/// What drawing the panel amounts to.
pub open spec fn panel_strokes(
    area: Rect,
    focused: bool,
    content: Content,
    columns: Seq<Seq<Rect>>,
) -> Seq<Stroke> {
    let inner = area.spec_inner();
    seq![Stroke::Block { title: "Control"@, chrome: colors::card(focused), area }] + list_strokes(
        items(13),
        lines_shown(inner),
        inner,
        content,
        columns,
    )
}

/// The lines up to a field begin the lines up to a later one, and a row never
/// stands for a field that is not among them.
proof fn lemma_items(n: nat, m: nat)
    requires
        n <= m <= 13,
    ensures
        items(n).len() <= items(m).len(),
        n <= items(n).len() <= 2 * n,
        forall|k: int| 0 <= k < items(n).len() ==> #[trigger] items(m)[k] == items(n)[k],
        forall|k: int|
            0 <= k < items(n).len() ==> (#[trigger] items(n)[k] matches Item::Row(i) ==> 0 <= i
                < n),
    decreases m,
{
    if m > n {
        lemma_items(n, (m - 1) as nat);
    } else if n > 0 {
        lemma_items((n - 1) as nat, (n - 1) as nat);
    }
}

/// The strokes of lines already drawn do not depend on the columns of rows that
/// are not among them.
proof fn lemma_columns_so_far(
    lines: Seq<Item>,
    k: nat,
    inner: Rect,
    content: Content,
    a: Seq<Seq<Rect>>,
    b: Seq<Seq<Rect>>,
)
    requires
        forall|j: int|
            0 <= j < k ==> (#[trigger] lines[j] matches Item::Row(i) ==> a[i] == b[i]),
    ensures
        list_strokes(lines, k, inner, content, a) == list_strokes(lines, k, inner, content, b),
    decreases k,
{
    if k > 0 {
        lemma_columns_so_far(lines, (k - 1) as nat, inner, content, a, b);
        assert(lines[k - 1] matches Item::Row(i) ==> a[i] == b[i]);
    }
}

/// The frame and the first `k` lines have been drawn.
pub open spec fn progress(
    start: Screen,
    now: Screen,
    frame: Stroke,
    inner: Rect,
    content: Content,
    columns: Seq<Seq<Rect>>,
    k: nat,
) -> bool {
    &&& shows(start, now, seq![frame] + list_strokes(items(13), k, inner, content, columns))
    &&& laid_out(inner, k, columns)
    &&& columns.len() == 13
    &&& whole(now)
}

/// One header more.
proof fn lemma_header_drawn(
    start: Screen,
    before: Screen,
    after: Screen,
    frame: Stroke,
    inner: Rect,
    content: Content,
    columns: Seq<Seq<Rect>>,
    k: nat,
    field: Field,
    stroke: Stroke,
)
    requires
        whole(start),
        progress(start, before, frame, inner, content, columns, k),
        k < items(13).len(),
        items(13)[k as int] == Item::Header(field),
        same_frame(before, after),
        cells(after) == stroked(cells(before), bounds(before), stroke),
        seq![stroke] == item_strokes(
            Item::Header(field),
            line_area(inner, k as int),
            content,
            columns,
        ),
    ensures
        progress(start, after, frame, inner, content, columns, k + 1),
{
    let done = seq![frame] + list_strokes(items(13), k, inner, content, columns);
    lemma_next(start, before, after, done, stroke);
    assert(done.push(stroke) =~= seq![frame] + list_strokes(
        items(13),
        k + 1,
        inner,
        content,
        columns,
    ));
}

/// One row more, with its columns.
proof fn lemma_row_drawn(
    start: Screen,
    before: Screen,
    after: Screen,
    frame: Stroke,
    inner: Rect,
    content: Content,
    columns: Seq<Seq<Rect>>,
    k: nat,
    i: int,
    parts: Seq<Rect>,
)
    requires
        whole(start),
        progress(start, before, frame, inner, content, columns, k),
        0 <= i < 13,
        items(i as nat).len() <= k < items((i + 1) as nat).len(),
        forall|j: int|
            0 <= j < k ==> (#[trigger] items(13)[j] matches Item::Row(h) ==> 0 <= h < i),
        items(13)[k as int] == Item::Row(i),
        side_by_side(line_area(inner, k as int), self::columns(), parts),
        shows(
            before,
            after,
            item_strokes(
                Item::Row(i),
                line_area(inner, k as int),
                content,
                columns.update(i, parts),
            ),
        ),
    ensures
        progress(start, after, frame, inner, content, columns.update(i, parts), k + 1),
{
    let wider = columns.update(i, parts);
    let lines = items(13);
    lemma_columns_so_far(lines, k, inner, content, columns, wider);
    let done = seq![frame] + list_strokes(lines, k, inner, content, columns);
    let row = item_strokes(Item::Row(i), line_area(inner, k as int), content, wider);
    lemma_more(start, before, after, done, row);
    assert(done + row =~= seq![frame] + list_strokes(lines, k + 1, inner, content, wider));
    assert forall|j: int| 0 <= j < k + 1 implies (#[trigger] items(13)[j] matches Item::Row(h)
        ==> side_by_side(line_area(inner, j), self::columns(), wider[h])) by {
        if j < k {
            assert(items(13)[j] matches Item::Row(h) ==> side_by_side(
                line_area(inner, j),
                self::columns(),
                columns[h],
            ));
        }
    }
}

/// Rows before the `i`th field's are of fields before it.
proof fn lemma_rows_before(i: nat, k: nat)
    requires
        i < 13,
        k <= items(i).len() + 1,
        k == items(i).len() + 1 ==> Field::ALL@[i as int].spec_section() is Some,
    ensures
        forall|j: int|
            0 <= j < k ==> (#[trigger] items(13)[j] matches Item::Row(h) ==> 0 <= h < i),
{
    lemma_items(i, 13);
    lemma_items(i + 1, 13);
    lemma_items(i, i + 1);
    assert forall|j: int| 0 <= j < k implies (#[trigger] items(13)[j] matches Item::Row(h) ==> 0
        <= h < i) by {
        if j < items(i).len() {
            assert(items(13)[j] == items(i)[j]);
        } else {
            assert(items(13)[j] == items(i + 1)[j]);
        }
    }
}

/// The texts are the values of all the fields in words.
pub open spec fn worded<F: Fn(Reading) -> String>(
    states: TuiStates,
    other: F,
    values: Seq<String>,
) -> bool {
    &&& values.len() == Field::ALL@.len()
    &&& forall|i: int|
        0 <= i < values.len() ==> Field::ALL@[i].spec_value(states).reads(
            other,
            #[trigger] values[i],
        )
}

/// The values of all the fields in words.
pub fn field_values<F: Fn(Reading) -> String>(states: &TuiStates, other: &F) -> (values: Vec<
    String,
>)
    requires
        words_everything(*other),
    ensures
        worded(*states, *other, values@),
        forall|i: int| 0 <= i < values@.len() ==> drawable((#[trigger] values@[i])@),
{
    let mut values: Vec<String> = Vec::new();
    while values.len() < Field::ALL.len()
        invariant
            values.len() <= 13,
            words_everything(*other),
            forall|i: int|
                0 <= i < values.len() ==> Field::ALL@[i].spec_value(*states).reads(
                    *other,
                    #[trigger] values@[i],
                ),
            forall|i: int| 0 <= i < values.len() ==> drawable((#[trigger] values@[i])@),
        decreases 13 - values.len(),
    {
        values.push(Field::ALL[values.len()].value(states).words(other));
    }
    values
}

impl ControlView {
    /// Draw the panel: every field with its value in words.
    ///
    /// Running off the bottom of a short pane stops drawing; it does not
    /// squeeze.
    pub fn render<F: Fn(Reading) -> String>(
        &self,
        area: Rect,
        buf: &mut Screen,
        states: &TuiStates,
        other: &F,
        focused_pane: bool,
    )
        requires
            self@.wf(),
            whole(*old(buf)),
            margin(area, bounds(*old(buf))),
            words_everything(*other),
        ensures
            exists|columns: Seq<Seq<Rect>>, values: Seq<String>|
                #[trigger] worded(*states, *other, values) && laid_out(
                    area.spec_inner(),
                    lines_shown(area.spec_inner()),
                    columns,
                ) && #[trigger] shows(
                    *old(buf),
                    *final(buf),
                    panel_strokes(
                        area,
                        focused_pane,
                        content_of(self@, *states, values, focused_pane),
                        columns,
                    ),
                ),
    {
        let values = field_values(states, other);
        let ghost start = *buf;
        let inner = area.inner();
        let ghost content = content_of(self@, *states, values@, focused_pane);
        let ghost columns: Seq<Seq<Rect>> = Seq::new(13, |i: int| Seq::empty());
        let ghost frame = Stroke::Block {
            title: "Control"@,
            chrome: colors::card(focused_pane),
            area,
        };
        proof {
            reveal_strlit("Control");
            lemma_fresh(start);
        }
        draw_block(buf, "Control", colors::pane_chrome(focused_pane), area);
        proof {
            lemma_next(start, start, *buf, Seq::empty(), frame);
            assert(Seq::<Stroke>::empty().push(frame) =~= seq![frame] + list_strokes(
                items(13),
                0,
                inner,
                content,
                columns,
            ));
            assert(progress(start, *buf, frame, inner, content, columns, 0));
        }
        if !inner.is_empty() {
            self.render_list(
                inner,
                buf,
                states,
                &values,
                focused_pane,
                Ghost(start),
                Ghost(frame),
                Ghost(columns),
            );
            proof {
                let columns = choose|columns: Seq<Seq<Rect>>| #[trigger]
                    progress(start, *buf, frame, inner, content, columns, lines_shown(inner));
                assert(shows(start, *buf, panel_strokes(area, focused_pane, content, columns)));
            }
        } else {
            assert(lines_shown(inner) == 0);
            assert(shows(start, *buf, panel_strokes(area, focused_pane, content, columns)));
        }
    }

    /// Draw the lines inside the frame.
    fn render_list(
        &self,
        inner: Rect,
        buf: &mut Screen,
        states: &TuiStates,
        values: &Vec<String>,
        focused_pane: bool,
        Ghost(start): Ghost<Screen>,
        Ghost(frame): Ghost<Stroke>,
        Ghost(columns): Ghost<Seq<Seq<Rect>>>,
    )
        requires
            self@.wf(),
            whole(start),
            margin(inner, bounds(start)),
            values@.len() == Field::ALL@.len(),
            forall|i: int| 0 <= i < values@.len() ==> drawable((#[trigger] values@[i])@),
            !inner.spec_is_empty(),
            progress(
                start,
                *old(buf),
                frame,
                inner,
                content_of(self@, *states, values@, focused_pane),
                columns,
                0,
            ),
        ensures
            exists|columns: Seq<Seq<Rect>>| #[trigger]
                progress(
                    start,
                    *final(buf),
                    frame,
                    inner,
                    content_of(self@, *states, values@, focused_pane),
                    columns,
                    lines_shown(inner),
                ),
    {
        let ghost content = content_of(self@, *states, values@, focused_pane);
        let ghost mut columns = columns;
        let bottom: u16 = inner.bottom();
        let mut y: u16 = inner.y;
        let mut i: usize = 0;
        while i < Field::ALL.len()
            invariant
                i <= 13,
                self@.wf(),
                values@.len() == 13,
                forall|i: int|
                    0 <= i < values@.len() ==> drawable((#[trigger] values@[i])@),
                whole(start),
                margin(inner, bounds(start)),
                !inner.spec_is_empty(),
                bottom == inner.spec_bottom(),
                inner.y <= y <= bottom,
                y - inner.y == items(i as nat).len(),
                content == content_of(self@, *states, values@, focused_pane),
                progress(start, *buf, frame, inner, content, columns, (y - inner.y) as nat),
            decreases 13 - i,
        {
            let field = Field::ALL[i];
            proof {
                field.lemma_names_are_brief();
                lemma_items((i + 1) as nat, 13);
                lemma_items(i as nat, (i + 1) as nat);
            }
            if let Some(name) = field.section() {
                if y >= bottom {
                    assert(lines_shown(inner) == y - inner.y);
                    return;
                }
                let ghost k = (y - inner.y) as nat;
                let ghost before = *buf;
                let style = Style { fg: Some(colors::SECTION), bg: None, modifiers: BOLD };
                let r = Rect::new(inner.x, y, inner.width, 1);
                draw_line(buf, name, style, r);
                proof {
                    let stroke = Stroke::Line { text: name@, style, area: r };
                    assert(items(13)[k as int] == items((i + 1) as nat)[k as int]);
                    lemma_header_drawn(
                        start,
                        before,
                        *buf,
                        frame,
                        inner,
                        content,
                        columns,
                        k,
                        field,
                        stroke,
                    );
                }
                y += 1;
            }
            if y >= bottom {
                assert(lines_shown(inner) == y - inner.y);
                return;
            }
            let ghost k = (y - inner.y) as nat;
            let ghost before = *buf;
            let r = Rect::new(inner.x, y, inner.width, 1);
            let focused = focused_pane && i == self.cursor();
            render_text(buf, r, field, focused, states, values[i].as_str());
            proof {
                let parts = choose|parts: Seq<Rect>|
                    side_by_side(r, self::columns(), parts) && #[trigger] shows(
                        before,
                        *buf,
                        row_strokes(
                            r,
                            parts,
                            field,
                            focused,
                            field.spec_inert(*states),
                            values@[i as int]@,
                        ),
                    );
                assert(items(13)[k as int] == items((i + 1) as nat)[k as int]);
                lemma_rows_before(i as nat, k);
                lemma_row_drawn(
                    start,
                    before,
                    *buf,
                    frame,
                    inner,
                    content,
                    columns,
                    k,
                    i as int,
                    parts,
                );
                columns = columns.update(i as int, parts);
            }
            y += 1;
            i += 1;
        }
        assert(lines_shown(inner) == y - inner.y);
    }
}

/// What the panel shows.
pub open spec fn content_of(
    view: ControlViewState,
    states: TuiStates,
    values: Seq<String>,
    focused: bool,
) -> Content {
    Content {
        states,
        values: values.map_values(|v: String| v@),
        cursor: if focused {
            Some(view.selected)
        } else {
            None
        },
    }
}

/// The panel at the height it asks for shows every line: all the fields, and a
/// header for each section.
pub proof fn full_height_shows_every_line(area: Rect)
    requires
        area.height == HEIGHT,
        area.width > 2,
        area.x + area.width <= u16::MAX,
        area.y + area.height <= u16::MAX,
    ensures
        items(13).len() == HEIGHT - 2,
        lines_shown(area.spec_inner()) == items(13).len(),
        forall|i: int| 0 <= i < 13 ==> #[trigger] items(13).contains(Item::Row(i)),
{
    reveal_with_fuel(items, 14);
    let lines = items(13);
    assert(lines[1] == Item::Row(0));
    assert(lines[2] == Item::Row(1));
    assert(lines[3] == Item::Row(2));
    assert(lines[4] == Item::Row(3));
    assert(lines[5] == Item::Row(4));
    assert(lines[6] == Item::Row(5));
    assert(lines[7] == Item::Row(6));
    assert(lines[8] == Item::Row(7));
    assert(lines[10] == Item::Row(8));
    assert(lines[11] == Item::Row(9));
    assert(lines[12] == Item::Row(10));
    assert(lines[14] == Item::Row(11));
    assert(lines[15] == Item::Row(12));
}

} // verus!
