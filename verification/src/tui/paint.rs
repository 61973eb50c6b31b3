//! The screen: areas, colours and styles, and the drawing primitives that
//! ratatui provides.
//!
//! A screen is a [`ratatui::buffer::Buffer`]. [`cells`] is what it holds and
//! [`bounds`] the area it covers. What a block, a line or a row of spans makes
//! of the cells is ratatui's business and goes by a name; everything the panels
//! draw is then a list of such strokes.

use ratatui::buffer::Buffer as Screen;
use ratatui::widgets::Widget;
use vstd::prelude::*;

use crate::text::plain;

verus! {

/// A rectangle of cells.
#[derive(Clone, Copy, Debug, PartialEq, Eq, Structural)]
pub struct Rect {
    pub x: u16,
    pub y: u16,
    pub width: u16,
    pub height: u16,
}

impl Rect {
    pub open spec fn spec_new(x: u16, y: u16, width: u16, height: u16) -> Rect {
        Rect {
            x,
            y,
            width: if width > u16::MAX - x {
                (u16::MAX - x) as u16
            } else {
                width
            },
            height: if height > u16::MAX - y {
                (u16::MAX - y) as u16
            } else {
                height
            },
        }
    }

    /// A rectangle, cut off where its far corner would have no coordinates.
    pub fn new(x: u16, y: u16, width: u16, height: u16) -> (r: Rect)
        ensures
            r == Rect::spec_new(x, y, width, height),
    {
        let width: u16 = if width > u16::MAX - x {
            u16::MAX - x
        } else {
            width
        };
        let height: u16 = if height > u16::MAX - y {
            u16::MAX - y
        } else {
            height
        };
        Rect { x, y, width, height }
    }

    pub open spec fn spec_is_empty(self) -> bool {
        self.width == 0 || self.height == 0
    }

    /// There is no cell in it.
    pub fn is_empty(self) -> (b: bool)
        ensures
            b == self.spec_is_empty(),
    {
        self.width == 0 || self.height == 0
    }

    pub open spec fn spec_right(self) -> u16 {
        if self.x + self.width > u16::MAX {
            u16::MAX
        } else {
            (self.x + self.width) as u16
        }
    }

    /// The first column to the right of it.
    pub fn right(self) -> (x: u16)
        ensures
            x == self.spec_right(),
    {
        self.x.saturating_add(self.width)
    }

    pub open spec fn spec_bottom(self) -> u16 {
        if self.y + self.height > u16::MAX {
            u16::MAX
        } else {
            (self.y + self.height) as u16
        }
    }

    /// The first row below it.
    pub fn bottom(self) -> (y: u16)
        ensures
            y == self.spec_bottom(),
    {
        self.y.saturating_add(self.height)
    }

    /// The cell at `p` lies in it.
    pub open spec fn holds(self, p: (u16, u16)) -> bool {
        &&& self.x <= p.0 < self.spec_right()
        &&& self.y <= p.1 < self.spec_bottom()
    }

    pub open spec fn spec_inner(self) -> Rect {
        Rect {
            x: if self.x < self.spec_right() {
                (self.x + 1) as u16
            } else {
                self.spec_right()
            },
            y: if self.y < self.spec_bottom() {
                (self.y + 1) as u16
            } else {
                self.spec_bottom()
            },
            width: if self.width >= 2 {
                (self.width - 2) as u16
            } else {
                0
            },
            height: if self.height >= 2 {
                (self.height - 2) as u16
            } else {
                0
            },
        }
    }

    /// What a border all around leaves of it.
    pub fn inner(self) -> (r: Rect)
        ensures
            r == self.spec_inner(),
    {
        let right: u16 = self.right();
        let bottom: u16 = self.bottom();
        Rect {
            x: if self.x < right {
                self.x + 1
            } else {
                right
            },
            y: if self.y < bottom {
                self.y + 1
            } else {
                bottom
            },
            width: self.width.saturating_sub(1).saturating_sub(1),
            height: self.height.saturating_sub(1).saturating_sub(1),
        }
    }
}

/// What lies inside a border lies inside the rectangle, and not on its edge.
pub proof fn inner_is_inside(r: Rect, p: (u16, u16))
    requires
        r.spec_inner().holds(p),
        r.x + r.width <= u16::MAX,
        r.y + r.height <= u16::MAX,
    ensures
        r.holds(p),
        r.x < p.0 < r.spec_right() - 1,
        r.y < p.1 < r.spec_bottom() - 1,
{
}

/// A 24-bit colour: red, green and blue.
pub type Color = (u8, u8, u8);

/// How text is drawn. What is not set is left as it was.
#[derive(Clone, Copy, Debug)]
pub struct Style {
    pub fg: Option<Color>,
    pub bg: Option<Color>,
    /// Any of [`BOLD`] and [`CROSSED_OUT`].
    pub modifiers: u16,
}

/// Bold text.
pub const BOLD: u16 = 1;

/// Text that is struck through.
pub const CROSSED_OUT: u16 = 256;

/// Both.
pub const BOLD_CROSSED_OUT: u16 = 257;

impl Style {
    /// Nothing set.
    pub open spec fn plain() -> Style {
        Style { fg: None, bg: None, modifiers: 0 }
    }

    /// Only the foreground set.
    pub open spec fn ink(c: Color) -> Style {
        Style { fg: Some(c), ..Style::plain() }
    }

    /// Only the background set.
    pub open spec fn ground(c: Color) -> Style {
        Style { bg: Some(c), ..Style::plain() }
    }

    /// Nothing set.
    pub fn new() -> (s: Style)
        ensures
            s == Style::plain(),
    {
        Style { fg: None, bg: None, modifiers: 0 }
    }

    /// The same with another foreground.
    pub fn fg(self, c: Color) -> (s: Style)
        ensures
            s == (Style { fg: Some(c), ..self }),
    {
        Style { fg: Some(c), ..self }
    }

    /// The same with another background.
    pub fn bg(self, c: Color) -> (s: Style)
        ensures
            s == (Style { bg: Some(c), ..self }),
    {
        Style { bg: Some(c), ..self }
    }
}

/// The number of a colour: its 24 bits.
pub open spec fn color_code(c: Color) -> int {
    c.0 * 0x1_0000 + c.1 * 0x100 + c.2
}

/// A cell of a screen: its text, and the numbers of its two colours and of its
/// modifiers. The terminal's own colours have negative numbers.
#[verifier::ext_equal]
pub struct CellView {
    pub symbol: Seq<char>,
    pub fg: int,
    pub bg: int,
    pub modifiers: int,
}

/// ratatui's screen buffer.
#[verifier::external_type_specification]
#[verifier::external_body]
pub struct ExScreen(Screen);

/// The cells of a screen, by column and row: those that its `cell` method
/// answers for.
pub uninterp spec fn cells(buf: Screen) -> Map<(u16, u16), CellView>;

/// The area a screen covers.
pub uninterp spec fn bounds(buf: Screen) -> Rect;

/// The screen has every cell of its area and no other, as ratatui makes them.
pub open spec fn whole(buf: Screen) -> bool {
    forall|p: (u16, u16)| #[trigger] cells(buf).contains_key(p) <==> bounds(buf).holds(p)
}

/// The longest text drawn in one piece. No character is more than three columns
/// wide, so the columns of such a text can be counted in 16 bits, as ratatui does.
pub const TEXT_MAX: usize = 20_000;

/// What is drawn in the area ends before the last column that 16 bits can name.
/// ratatui looks one column past the end of a text.
pub open spec fn margin(area: Rect, frame: Rect) -> bool {
    area.spec_right() < u16::MAX || frame.spec_right() < u16::MAX
}

/// A text that can be cut off anywhere: not too long, and of nothing but
/// characters that are one column wide whatever stands beside them.
pub open spec fn drawable(text: Seq<char>) -> bool {
    text.len() <= TEXT_MAX && plain(text)
}

/// The function puts everything into words that can be drawn.
pub open spec fn words_everything<A, F: Fn(A) -> String>(f: F) -> bool {
    &&& forall|a: A| #[trigger] call_requires(f, (a,))
    &&& forall|a: A, s: String| #[trigger] call_ensures(f, (a,), s) ==> drawable(s@)
}

/// The screens cover the same area with the same cells.
pub open spec fn same_frame(a: Screen, b: Screen) -> bool {
    &&& bounds(a) == bounds(b)
    &&& cells(a).dom() == cells(b).dom()
}

/// Only cells of the area differ.
pub open spec fn only_inside(
    area: Rect,
    before: Map<(u16, u16), CellView>,
    after: Map<(u16, u16), CellView>,
) -> bool {
    forall|p: (u16, u16)| !area.holds(p) && before.contains_key(p) ==> #[trigger] after[p]
        == before[p]
}

/// A text and its style.
pub type SpanView = (Seq<char>, Style);

/// A piece of a line.
pub struct Span {
    pub text: String,
    pub style: Style,
}

impl View for Span {
    type V = SpanView;

    open spec fn view(&self) -> SpanView {
        (self.text@, self.style)
    }
}

/// Pieces of a line.
pub open spec fn span_views(spans: Seq<Span>) -> Seq<SpanView> {
    spans.map_values(|s: Span| s@)
}

/// A border and a title, and the ground between them.
#[derive(Clone, Copy, Debug)]
pub struct Chrome {
    pub style: Style,
    pub title_style: Style,
    pub border_style: Style,
}

/// The cells after a styled line of text.
pub uninterp spec fn line_drawn(
    screen: Map<(u16, u16), CellView>,
    frame: Rect,
    text: Seq<char>,
    style: Style,
    area: Rect,
) -> Map<(u16, u16), CellView>;

/// The cells after a styled line of text that ends at the right edge.
pub uninterp spec fn right_line_drawn(
    screen: Map<(u16, u16), CellView>,
    frame: Rect,
    text: Seq<char>,
    style: Style,
    area: Rect,
) -> Map<(u16, u16), CellView>;

/// The cells after a line of several pieces.
pub uninterp spec fn spans_drawn(
    screen: Map<(u16, u16), CellView>,
    frame: Rect,
    spans: Seq<SpanView>,
    area: Rect,
) -> Map<(u16, u16), CellView>;

/// The cells after a bordered block with a title.
pub uninterp spec fn block_drawn(
    screen: Map<(u16, u16), CellView>,
    frame: Rect,
    title: Seq<char>,
    chrome: Chrome,
    area: Rect,
) -> Map<(u16, u16), CellView>;

/// `ratatui::buffer::Buffer::empty`: a screen of the area, every cell a space in
/// the terminal's own colours. Nothing is said of which numbers those have.
#[verifier::external_body]
fn empty_buffer(area: Rect) -> (buf: Screen)
    ensures
        bounds(buf) == area,
        whole(buf),
        forall|p: (u16, u16)| area.holds(p) ==> (#[trigger] cells(buf)[p]).symbol == " "@,
{
    Screen::empty(ratatui::layout::Rect {
        x: area.x,
        y: area.y,
        width: area.width,
        height: area.height,
    })
}

/// A blank screen of the area.
pub fn blank(area: Rect) -> (buf: Screen)
    ensures
        bounds(buf) == area,
        whole(buf),
        forall|p: (u16, u16)| area.holds(p) ==> (#[trigger] cells(buf)[p]).symbol == " "@,
{
    empty_buffer(area)
}

/// `Buffer::cell_mut`, then `Cell::set_char` and `Cell::set_fg`: the cell's text
/// becomes the one character and its foreground the colour; where there is no
/// such cell, nothing happens.
#[verifier::external_body]
pub(crate) fn set_glyph(buf: &mut Screen, x: u16, y: u16, glyph: char, fg: Color)
    ensures
        same_frame(*final(buf), *old(buf)),
        cells(*final(buf)) == glyph_set(cells(*old(buf)), x, y, glyph, fg),
{
    let color = ratatui::style::Color::Rgb(fg.0, fg.1, fg.2);
    if let Some(cell) = buf.cell_mut((x, y)) {
        cell.set_char(glyph).set_fg(color);
    }
}

/// The cells after one of them got another character and foreground.
pub open spec fn glyph_set(
    screen: Map<(u16, u16), CellView>,
    x: u16,
    y: u16,
    glyph: char,
    fg: Color,
) -> Map<(u16, u16), CellView> {
    if screen.contains_key((x, y)) {
        screen.insert(
            (x, y),
            CellView { symbol: seq![glyph], fg: color_code(fg), ..screen[(x, y)] },
        )
    } else {
        screen
    }
}

/// `Buffer::cell_mut`, then `Cell::set_bg`: the cell's background becomes the
/// colour; where there is no such cell, nothing happens.
#[verifier::external_body]
pub(crate) fn set_back(buf: &mut Screen, x: u16, y: u16, bg: Color)
    ensures
        same_frame(*final(buf), *old(buf)),
        cells(*final(buf)) == back_set(cells(*old(buf)), x, y, bg),
{
    let color = ratatui::style::Color::Rgb(bg.0, bg.1, bg.2);
    if let Some(cell) = buf.cell_mut((x, y)) {
        cell.set_bg(color);
    }
}

/// The cells after one of them got another background.
pub open spec fn back_set(
    screen: Map<(u16, u16), CellView>,
    x: u16,
    y: u16,
    bg: Color,
) -> Map<(u16, u16), CellView> {
    if screen.contains_key((x, y)) {
        screen.insert((x, y), CellView { bg: color_code(bg), ..screen[(x, y)] })
    } else {
        screen
    }
}

/// `ratatui::text::Line::styled`, rendered: the text from the left edge of the
/// area's first row, cut off at its right edge. Which cells get which text goes
/// by the name [`line_drawn`]; no cell outside the area changes. The area keeps a
/// [`margin`] and the text is at most [`TEXT_MAX`] long, because ratatui counts
/// columns in 16 bits.
#[verifier::external_body]
pub(crate) fn draw_line(buf: &mut Screen, text: &str, style: Style, area: Rect)
    requires
        whole(*old(buf)),
        margin(area, bounds(*old(buf))),
        text@.len() <= TEXT_MAX,
    ensures
        same_frame(*final(buf), *old(buf)),
        cells(*final(buf)) == line_drawn(
            cells(*old(buf)),
            bounds(*old(buf)),
            text@,
            style,
            area,
        ),
        only_inside(area, cells(*old(buf)), cells(*final(buf))),
{
    let ink = |c: Color| ratatui::style::Color::Rgb(c.0, c.1, c.2);
    let s = ratatui::style::Style {
        fg: style.fg.map(ink),
        bg: style.bg.map(ink),
        add_modifier: ratatui::style::Modifier::from_bits_truncate(style.modifiers),
        ..ratatui::style::Style::new()
    };
    let r = ratatui::layout::Rect { x: area.x, y: area.y, width: area.width, height: area.height };
    ratatui::text::Line::styled(text, s).render(r, buf)
}

/// `ratatui::text::Line::styled` with `right_aligned`, rendered: the text up to
/// the right edge of the area's first row, cut off at its left edge. Which cells
/// get which text goes by the name [`right_line_drawn`]; no cell outside the
/// area changes. The area keeps a [`margin`] and the text is at most
/// [`TEXT_MAX`] long, because ratatui counts columns in 16 bits; and it is
/// [`plain`], because ratatui cuts it off with `unicode_truncate_start`, which
/// takes a text to be as wide as its graphemes added up.
#[verifier::external_body]
pub(crate) fn draw_right_line(buf: &mut Screen, text: &str, style: Style, area: Rect)
    requires
        whole(*old(buf)),
        margin(area, bounds(*old(buf))),
        drawable(text@),
    ensures
        same_frame(*final(buf), *old(buf)),
        cells(*final(buf)) == right_line_drawn(
            cells(*old(buf)),
            bounds(*old(buf)),
            text@,
            style,
            area,
        ),
        only_inside(area, cells(*old(buf)), cells(*final(buf))),
{
    let ink = |c: Color| ratatui::style::Color::Rgb(c.0, c.1, c.2);
    let s = ratatui::style::Style {
        fg: style.fg.map(ink),
        bg: style.bg.map(ink),
        add_modifier: ratatui::style::Modifier::from_bits_truncate(style.modifiers),
        ..ratatui::style::Style::new()
    };
    let r = ratatui::layout::Rect { x: area.x, y: area.y, width: area.width, height: area.height };
    ratatui::text::Line::styled(text, s).right_aligned().render(r, buf)
}

/// `ratatui::text::Line::from` several `Span::styled`, rendered: the pieces one
/// after the other from the left edge of the area's first row, cut off at its
/// right edge. Which cells get which text goes by the name [`spans_drawn`]; no
/// cell outside the area changes. The area keeps a [`margin`] and each piece is
/// at most [`TEXT_MAX`] long, because ratatui counts columns in 16 bits.
#[verifier::external_body]
pub(crate) fn draw_spans(buf: &mut Screen, spans: &Vec<Span>, area: Rect)
    requires
        whole(*old(buf)),
        margin(area, bounds(*old(buf))),
        forall|i: int| 0 <= i < spans@.len() ==> (#[trigger] spans@[i]).text@.len() <= TEXT_MAX,
    ensures
        same_frame(*final(buf), *old(buf)),
        cells(*final(buf)) == spans_drawn(
            cells(*old(buf)),
            bounds(*old(buf)),
            span_views(spans@),
            area,
        ),
        only_inside(area, cells(*old(buf)), cells(*final(buf))),
{
    let ink = |c: Color| ratatui::style::Color::Rgb(c.0, c.1, c.2);
    let style = |s: Style| ratatui::style::Style {
        fg: s.fg.map(ink),
        bg: s.bg.map(ink),
        add_modifier: ratatui::style::Modifier::from_bits_truncate(s.modifiers),
        ..ratatui::style::Style::new()
    };
    let line = spans.iter().map(|s| ratatui::text::Span::styled(s.text.as_str(), style(s.style)));
    let r = ratatui::layout::Rect { x: area.x, y: area.y, width: area.width, height: area.height };
    ratatui::text::Line::from_iter(line).render(r, buf)
}

/// `ratatui::widgets::Block::bordered` with a title and styles, rendered: a
/// border around the area, the title on its top edge, and the ground. Which
/// cells get which text goes by the name [`block_drawn`]; no cell outside the
/// area changes. The title is kept short, because ratatui adds up title widths
/// in 16 bits.
#[verifier::external_body]
pub(crate) fn draw_block(buf: &mut Screen, title: &str, chrome: Chrome, area: Rect)
    requires
        whole(*old(buf)),
        title@.len() <= 1000,
    ensures
        same_frame(*final(buf), *old(buf)),
        cells(*final(buf)) == block_drawn(
            cells(*old(buf)),
            bounds(*old(buf)),
            title@,
            chrome,
            area,
        ),
        only_inside(area, cells(*old(buf)), cells(*final(buf))),
{
    let ink = |c: Color| ratatui::style::Color::Rgb(c.0, c.1, c.2);
    let style = |s: Style| ratatui::style::Style {
        fg: s.fg.map(ink),
        bg: s.bg.map(ink),
        add_modifier: ratatui::style::Modifier::from_bits_truncate(s.modifiers),
        ..ratatui::style::Style::new()
    };
    let block = ratatui::widgets::Block::bordered().style(style(chrome.style)).title(title);
    let block = block.title_style(style(chrome.title_style));
    let r = ratatui::layout::Rect { x: area.x, y: area.y, width: area.width, height: area.height };
    block.border_style(style(chrome.border_style)).render(r, buf)
}

/// Something drawn.
pub enum Stroke {
    Line { text: Seq<char>, style: Style, area: Rect },
    RightLine { text: Seq<char>, style: Style, area: Rect },
    Spans { spans: Seq<SpanView>, area: Rect },
    Block { title: Seq<char>, chrome: Chrome, area: Rect },
    Glyph { x: u16, y: u16, glyph: char, fg: Color },
    Back { x: u16, y: u16, bg: Color },
}

/// The cells after one stroke.
pub open spec fn stroked(
    screen: Map<(u16, u16), CellView>,
    frame: Rect,
    stroke: Stroke,
) -> Map<(u16, u16), CellView> {
    match stroke {
        Stroke::Line { text, style, area } => line_drawn(screen, frame, text, style, area),
        Stroke::RightLine { text, style, area } => right_line_drawn(
            screen,
            frame,
            text,
            style,
            area,
        ),
        Stroke::Spans { spans, area } => spans_drawn(screen, frame, spans, area),
        Stroke::Block { title, chrome, area } => block_drawn(screen, frame, title, chrome, area),
        Stroke::Glyph { x, y, glyph, fg } => glyph_set(screen, x, y, glyph, fg),
        Stroke::Back { x, y, bg } => back_set(screen, x, y, bg),
    }
}

/// The cells after a list of strokes, one upon the other.
pub open spec fn drawn(
    screen: Map<(u16, u16), CellView>,
    frame: Rect,
    strokes: Seq<Stroke>,
) -> Map<(u16, u16), CellView>
    decreases strokes.len(),
{
    if strokes.len() == 0 {
        screen
    } else {
        stroked(drawn(screen, frame, strokes.drop_last()), frame, strokes.last())
    }
}

/// The screen `after` is the screen `before` with the strokes drawn upon it.
pub open spec fn shows(before: Screen, after: Screen, strokes: Seq<Stroke>) -> bool {
    &&& same_frame(before, after)
    &&& cells(after) == drawn(cells(before), bounds(before), strokes)
}

/// One stroke more.
pub proof fn lemma_drawn_push(
    screen: Map<(u16, u16), CellView>,
    frame: Rect,
    strokes: Seq<Stroke>,
    stroke: Stroke,
)
    ensures
        drawn(screen, frame, strokes.push(stroke)) == stroked(
            drawn(screen, frame, strokes),
            frame,
            stroke,
        ),
{
    assert(strokes.push(stroke).drop_last() =~= strokes);
}

/// Drawing one list and then another is drawing both.
pub proof fn lemma_drawn_add(
    screen: Map<(u16, u16), CellView>,
    frame: Rect,
    a: Seq<Stroke>,
    b: Seq<Stroke>,
)
    ensures
        drawn(screen, frame, a + b) == drawn(drawn(screen, frame, a), frame, b),
    decreases b.len(),
{
    if b.len() == 0 {
        assert(a + b =~= a);
    } else {
        lemma_drawn_add(screen, frame, a, b.drop_last());
        assert((a + b).drop_last() =~= a + b.drop_last());
    }
}

/// One screen after another.
pub proof fn lemma_shows_add(
    before: Screen,
    between: Screen,
    after: Screen,
    a: Seq<Stroke>,
    b: Seq<Stroke>,
)
    requires
        shows(before, between, a),
        shows(between, after, b),
    ensures
        shows(before, after, a + b),
{
    lemma_drawn_add(cells(before), bounds(before), a, b);
}

/// A screen shows nothing new where nothing was drawn, and one stroke where one
/// was.
pub proof fn lemma_shows_one(before: Screen, after: Screen, stroke: Stroke)
    requires
        same_frame(before, after),
        cells(after) == stroked(cells(before), bounds(before), stroke),
    ensures
        shows(before, before, Seq::empty()),
        shows(before, after, seq![stroke]),
{
    assert(seq![stroke] =~= Seq::<Stroke>::empty().push(stroke));
    lemma_drawn_push(cells(before), bounds(before), Seq::empty(), stroke);
    assert(drawn(cells(before), bounds(before), Seq::<Stroke>::empty()) == cells(before));
}

/// A whole screen stays whole.
pub proof fn lemma_stays_whole(before: Screen, after: Screen)
    requires
        whole(before),
        same_frame(before, after),
    ensures
        whole(after),
{
    assert forall|p: (u16, u16)| #[trigger] cells(after).contains_key(p) <==> bounds(
        after,
    ).holds(p) by {
        assert(cells(before).dom().contains(p) == cells(after).dom().contains(p));
        assert(cells(before).contains_key(p) <==> bounds(before).holds(p));
    }
}

/// Nothing has been drawn yet.
pub proof fn lemma_fresh(start: Screen)
    ensures
        shows(start, start, Seq::empty()),
{
    assert(drawn(cells(start), bounds(start), Seq::<Stroke>::empty()) == cells(start));
}

/// One stroke more upon what has been drawn.
pub proof fn lemma_next(
    start: Screen,
    before: Screen,
    after: Screen,
    done: Seq<Stroke>,
    stroke: Stroke,
)
    requires
        shows(start, before, done),
        same_frame(before, after),
        cells(after) == stroked(cells(before), bounds(before), stroke),
    ensures
        shows(start, after, done.push(stroke)),
        whole(start) ==> whole(after),
{
    lemma_drawn_push(cells(start), bounds(start), done, stroke);
    if whole(start) {
        lemma_stays_whole(start, after);
    }
}

/// A list of strokes more upon what has been drawn.
pub proof fn lemma_more(
    start: Screen,
    before: Screen,
    after: Screen,
    done: Seq<Stroke>,
    strokes: Seq<Stroke>,
)
    requires
        shows(start, before, done),
        shows(before, after, strokes),
    ensures
        shows(start, after, done + strokes),
        whole(start) ==> whole(after),
{
    lemma_shows_add(start, before, after, done, strokes);
    if whole(start) {
        lemma_stays_whole(start, after);
    }
}

/// The backgrounds of one row, from `x` up to `end`.
pub open spec fn row_backs(x: int, end: int, y: u16, bg: Color) -> Seq<Stroke> {
    Seq::new(
        if x < end {
            (end - x) as nat
        } else {
            0
        },
        |i: int| Stroke::Back { x: (x + i) as u16, y, bg },
    )
}

/// Every background of an area, row by row.
pub open spec fn area_backs(area: Rect, rows: nat, bg: Color) -> Seq<Stroke>
    decreases rows,
{
    if rows == 0 {
        Seq::empty()
    } else {
        area_backs(area, (rows - 1) as nat, bg) + row_backs(
            area.x as int,
            area.spec_right() as int,
            (area.y + rows - 1) as u16,
            bg,
        )
    }
}

/// Lift an area off its ground: give every cell of it another background.
pub fn lift(buf: &mut Screen, area: Rect, bg: Color)
    ensures
        shows(
            *old(buf),
            *final(buf),
            area_backs(area, (area.spec_bottom() - area.y) as nat, bg),
        ),
{
    let right: u16 = area.right();
    let bottom: u16 = area.bottom();
    let mut y: u16 = area.y;
    let ghost start = *buf;
    assert(drawn(cells(start), bounds(start), Seq::<Stroke>::empty()) == cells(start));
    while y < bottom
        invariant
            area.y <= y <= bottom,
            bottom == area.spec_bottom(),
            right == area.spec_right(),
            shows(start, *buf, area_backs(area, (y - area.y) as nat, bg)),
        decreases bottom - y,
    {
        let ghost rows = area_backs(area, (y - area.y) as nat, bg);
        let ghost here = *buf;
        let mut x: u16 = area.x;
        assert(row_backs(area.x as int, x as int, y, bg) =~= Seq::<Stroke>::empty());
        while x < right
            invariant
                area.x <= x <= right,
                right == area.spec_right(),
                shows(here, *buf, row_backs(area.x as int, x as int, y, bg)),
            decreases right - x,
        {
            let ghost before = *buf;
            set_back(buf, x, y, bg);
            proof {
                let stroke = Stroke::Back { x, y, bg };
                lemma_shows_one(before, *buf, stroke);
                lemma_shows_add(
                    here,
                    before,
                    *buf,
                    row_backs(area.x as int, x as int, y, bg),
                    seq![stroke],
                );
                assert(row_backs(area.x as int, x as int, y, bg) + seq![stroke] =~= row_backs(
                    area.x as int,
                    x + 1,
                    y,
                    bg,
                ));
            }
            x += 1;
        }
        proof {
            lemma_shows_add(
                start,
                here,
                *buf,
                rows,
                row_backs(area.x as int, right as int, y, bg),
            );
        }
        y += 1;
    }
}

/// How much room a part of an area asks for.
#[derive(Clone, Copy, Debug, PartialEq, Eq, Structural)]
pub enum Constraint {
    /// That many rows or columns.
    Length(u16),
    /// That many hundredths of the whole.
    Percentage(u16),
    /// What is left, shared in that proportion.
    Fill(u16),
}

/// What a part claims of so many rows or columns, in hundredths of one.
pub open spec fn claim(c: Constraint, extent: int) -> int {
    match c {
        Constraint::Length(n) => 100 * n,
        Constraint::Percentage(p) => p * extent,
        Constraint::Fill(_) => 0,
    }
}

/// What all parts claim together.
pub open spec fn claimed(cs: Seq<Constraint>, extent: int) -> int
    decreases cs.len(),
{
    if cs.len() == 0 {
        0
    } else {
        claimed(cs.drop_last(), extent) + claim(cs.last(), extent)
    }
}

/// There is room for all that is claimed, and at most one part takes what is
/// left.
pub open spec fn fits(cs: Seq<Constraint>, extent: int) -> bool {
    &&& claimed(cs, extent) <= 100 * extent
    &&& forall|i: int, j: int|
        0 <= i < cs.len() && 0 <= j < cs.len() && #[trigger] cs[i] is Fill && #[trigger] cs[j] is Fill
            ==> i == j
}

/// What the first `i` parts take where they all fit, in hundredths: what they
/// claim, or what is left.
pub open spec fn taken(cs: Seq<Constraint>, extent: int, i: int) -> int
    decreases i,
{
    if i <= 0 {
        0
    } else {
        taken(cs, extent, i - 1) + if cs[i - 1] is Fill {
            100 * extent - claimed(cs, extent)
        } else {
            claim(cs[i - 1], extent)
        }
    }
}

/// Where part `i` starts where they all fit, and the one before it ends: at the
/// nearest row or column.
pub open spec fn edge(cs: Seq<Constraint>, extent: int, i: int) -> int {
    (taken(cs, extent, i) + 50) / 100
}

/// The one part starts where the other ends.
pub open spec fn right_behind(a: Rect, b: Rect) -> bool {
    b.x == a.x + a.width
}

/// The one part starts where the other ends.
pub open spec fn right_below(a: Rect, b: Rect) -> bool {
    b.y == a.y + a.height
}

/// Parts side by side: each as high as the area and within it, the first at its
/// left edge and each right behind the one before; and where they all fit, each
/// of the width it asks for.
pub open spec fn side_by_side(area: Rect, cs: Seq<Constraint>, parts: Seq<Rect>) -> bool {
    &&& parts.len() == cs.len()
    &&& forall|i: int|
        0 <= i < cs.len() ==> (#[trigger] parts[i]).y == area.y && parts[i].height == area.height
            && area.x <= parts[i].x && parts[i].x + parts[i].width <= area.spec_right()
    &&& parts.len() > 0 ==> parts[0].x == area.x
    &&& forall|i: int, j: int|
        0 <= i && i + 1 == j && j < parts.len() ==> right_behind(
            #[trigger] parts[i],
            #[trigger] parts[j],
        )
    &&& fits(cs, area.spec_right() - area.x) ==> forall|i: int|
        0 <= i < cs.len() ==> (#[trigger] parts[i]).x == area.x + edge(
            cs,
            area.spec_right() - area.x,
            i,
        ) && parts[i].x + parts[i].width == area.x + edge(cs, area.spec_right() - area.x, i + 1)
}

/// Parts one below the other: each as wide as the area and within it, the first
/// at its top and each right below the one before; and where they all fit, each
/// of the height it asks for.
pub open spec fn stacked(area: Rect, cs: Seq<Constraint>, parts: Seq<Rect>) -> bool {
    &&& parts.len() == cs.len()
    &&& forall|i: int|
        0 <= i < cs.len() ==> (#[trigger] parts[i]).x == area.x && parts[i].width == area.width
            && area.y <= parts[i].y && parts[i].y + parts[i].height <= area.spec_bottom()
    &&& parts.len() > 0 ==> parts[0].y == area.y
    &&& forall|i: int, j: int|
        0 <= i && i + 1 == j && j < parts.len() ==> right_below(
            #[trigger] parts[i],
            #[trigger] parts[j],
        )
    &&& fits(cs, area.spec_bottom() - area.y) ==> forall|i: int|
        0 <= i < cs.len() ==> (#[trigger] parts[i]).y == area.y + edge(
            cs,
            area.spec_bottom() - area.y,
            i,
        ) && parts[i].y + parts[i].height == area.y + edge(cs, area.spec_bottom() - area.y, i + 1)
}

/// Two parts, the first of so many rows or columns and the other with the rest.
pub proof fn lemma_two_parts(n: u16, k: u16, extent: int)
    requires
        n <= extent,
    ensures
        ({
            let cs = seq![Constraint::Length(n), Constraint::Fill(k)];
            &&& fits(cs, extent)
            &&& edge(cs, extent, 0) == 0
            &&& edge(cs, extent, 1) == n
            &&& edge(cs, extent, 2) == extent
        }),
{
    let cs = seq![Constraint::Length(n), Constraint::Fill(k)];
    reveal_with_fuel(claimed, 3);
    reveal_with_fuel(taken, 3);
    assert(cs.drop_last() =~= seq![Constraint::Length(n)]);
    assert(cs.drop_last().drop_last() =~= Seq::<Constraint>::empty());
    assert(claimed(cs, extent) == 100 * n);
}

/// `ratatui::layout::Layout::horizontal`, split: a part of the area for each
/// constraint, side by side without a gap. Where they all fit, every part gets
/// what it claims, to the hundredth of a column, and every edge is rounded to a
/// column. Where they do not, ratatui's solver weighs one against the other, and
/// it walks hash maps: nothing is said of how wide each part is then. There are
/// at most twenty parts, so that an edge which two of them share is rounded
/// the same way for both.
#[verifier::external_body]
pub(crate) fn split_horizontal(area: Rect, cs: &Vec<Constraint>) -> (parts: Vec<Rect>)
    requires
        cs@.len() <= 20,
    ensures
        side_by_side(area, cs@, parts@),
{
    let all = cs.iter().map(|c| match c {
        Constraint::Length(n) => ratatui::layout::Constraint::Length(*n),
        Constraint::Percentage(n) => ratatui::layout::Constraint::Percentage(*n),
        Constraint::Fill(n) => ratatui::layout::Constraint::Fill(*n),
    });
    let r = ratatui::layout::Rect { x: area.x, y: area.y, width: area.width, height: area.height };
    let parts = ratatui::layout::Layout::horizontal(all).split(r);
    parts.iter().map(|p| Rect { x: p.x, y: p.y, width: p.width, height: p.height }).collect()
}

/// `ratatui::layout::Layout::vertical`, split: a part of the area for each
/// constraint, one below the other. What is said of
/// [`split_horizontal`] holds here too.
#[verifier::external_body]
pub(crate) fn split_vertical(area: Rect, cs: &Vec<Constraint>) -> (parts: Vec<Rect>)
    requires
        cs@.len() <= 20,
    ensures
        stacked(area, cs@, parts@),
{
    let all = cs.iter().map(|c| match c {
        Constraint::Length(n) => ratatui::layout::Constraint::Length(*n),
        Constraint::Percentage(n) => ratatui::layout::Constraint::Percentage(*n),
        Constraint::Fill(n) => ratatui::layout::Constraint::Fill(*n),
    });
    let r = ratatui::layout::Rect { x: area.x, y: area.y, width: area.width, height: area.height };
    let parts = ratatui::layout::Layout::vertical(all).split(r);
    parts.iter().map(|p| Rect { x: p.x, y: p.y, width: p.width, height: p.height }).collect()
}

} // verus!
