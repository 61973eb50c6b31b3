//! The plots of the signal panel: the spectrum, in blocks or in braille dots,
//! and the waterfall.

use ratatui::buffer::Buffer as Screen;
use vstd::prelude::*;

use crate::tui::paint::{
    lemma_fresh, lemma_more, lemma_next, set_back, set_glyph, shows, Color, Rect, Stroke,
};

verus! {

/// `char::from_u32`: the character of a code point, where it is one; surrogates
/// and what lies beyond U+10FFFF are none.
pub assume_specification[ char::from_u32 ](i: u32) -> (c: Option<char>)
    ensures
        c == (if i < 0xD800 || 0xE000 <= i <= 0x10_FFFF {
            Some(i as char)
        } else {
            None
        }),
;

/// The upper half block. The foreground paints the upper half of the cell and
/// the background the lower, so every row of the screen carries two lines.
pub const HALF: char = '\u{2580}';

/// The blank braille pattern. The other patterns follow it, each as far behind
/// it as the sum of its dots.
pub const BRAILLE_BASE: u32 = 0x2800;

/// The value of the dot in row `dy` and column `dx` of a braille cell, row 0 at
/// the top. The first three rows come from the six-dot cell, counted down the
/// left column and then down the right; the fourth was added later.
pub open spec fn dot_value(dy: int, dx: int) -> int {
    if dx == 0 {
        if dy == 0 {
            0x01
        } else if dy == 1 {
            0x02
        } else if dy == 2 {
            0x04
        } else {
            0x40
        }
    } else {
        if dy == 0 {
            0x08
        } else if dy == 1 {
            0x10
        } else if dy == 2 {
            0x20
        } else {
            0x80
        }
    }
}

/// The bar of sub-column `sx` lights the dot in sub-row `y`, counted from the
/// top: everything from its tip down, or, of a trace, the run from the last tip
/// to this one.
pub open spec fn lit(tops: Seq<usize>, sx: int, y: int, trace: bool) -> bool {
    if !trace {
        y >= tops[sx]
    } else {
        let prev = if sx == 0 {
            tops[sx]
        } else {
            tops[sx - 1]
        };
        (prev <= y <= tops[sx]) || (tops[sx] <= y <= prev)
    }
}

/// The bar of sub-column `sx` lights the dot in sub-row `y`.
pub fn dot_lit(tops: &Vec<usize>, sx: usize, y: usize, trace: bool) -> (b: bool)
    requires
        sx < tops@.len(),
    ensures
        b == lit(tops@, sx as int, y as int, trace),
{
    let cur: usize = tops[sx];
    if !trace {
        return y >= cur;
    }
    let prev: usize = if sx == 0 {
        cur
    } else {
        tops[sx - 1]
    };
    let low: usize = if cur < prev {
        cur
    } else {
        prev
    };
    let high: usize = if cur < prev {
        prev
    } else {
        cur
    };
    y >= low && y <= high
}

/// The outline is joined up: between the tips of two neighbouring sub-columns
/// there is no gap, and the tip itself is lit.
pub proof fn trace_has_no_gaps(tops: Seq<usize>, sx: int, y: int)
    requires
        0 < sx < tops.len(),
    ensures
        lit(tops, sx, tops[sx] as int, true),
        lit(tops, sx, tops[sx - 1] as int, true),
        tops[sx - 1] <= y <= tops[sx] || tops[sx] <= y <= tops[sx - 1] ==> lit(tops, sx, y, true),
{
}

/// The value of one dot of a cell, or nothing where it is dark.
pub open spec fn dot_at(
    tops: Seq<usize>,
    cx: int,
    cy: int,
    dy: int,
    dx: int,
    trace: bool,
) -> int {
    if lit(tops, 2 * cx + dx, 4 * cy + dy, trace) {
        dot_value(dy, dx)
    } else {
        0
    }
}

/// The sum of the dots of a cell.
pub open spec fn dots(tops: Seq<usize>, cx: int, cy: int, trace: bool) -> int {
    dot_at(tops, cx, cy, 0, 0, trace) + dot_at(tops, cx, cy, 1, 0, trace) + dot_at(
        tops,
        cx,
        cy,
        2,
        0,
        trace,
    ) + dot_at(tops, cx, cy, 3, 0, trace) + dot_at(tops, cx, cy, 0, 1, trace) + dot_at(
        tops,
        cx,
        cy,
        1,
        1,
        trace,
    ) + dot_at(tops, cx, cy, 2, 1, trace) + dot_at(tops, cx, cy, 3, 1, trace)
}

/// The dots of one column of a cell.
fn half_cell(tops: &Vec<usize>, sx: usize, y: usize, trace: bool, values: [u32; 4]) -> (n: u32)
    requires
        sx < tops@.len(),
        y + 3 <= usize::MAX,
        values@[0] + values@[1] + values@[2] + values@[3] < 0x100,
    ensures
        n == (if lit(tops@, sx as int, y as int, trace) {
            values@[0] as int
        } else {
            0
        }) + (if lit(tops@, sx as int, y + 1, trace) {
            values@[1] as int
        } else {
            0
        }) + (if lit(tops@, sx as int, y + 2, trace) {
            values@[2] as int
        } else {
            0
        }) + (if lit(tops@, sx as int, y + 3, trace) {
            values@[3] as int
        } else {
            0
        }),
{
    let mut n: u32 = 0;
    if dot_lit(tops, sx, y, trace) {
        n += values[0];
    }
    if dot_lit(tops, sx, y + 1, trace) {
        n += values[1];
    }
    if dot_lit(tops, sx, y + 2, trace) {
        n += values[2];
    }
    if dot_lit(tops, sx, y + 3, trace) {
        n += values[3];
    }
    n
}

/// The sum of the dots of a cell.
pub fn braille_dots(tops: &Vec<usize>, cx: usize, cy: usize, trace: bool) -> (n: u32)
    requires
        2 * cx + 1 < tops@.len(),
        4 * cy + 3 <= usize::MAX,
    ensures
        n == dots(tops@, cx as int, cy as int, trace),
        n < 0x100,
{
    assert(tops.len() == tops@.len());
    let left: u32 = half_cell(tops, 2 * cx, 4 * cy, trace, [0x01, 0x02, 0x04, 0x40]);
    let right: u32 = half_cell(tops, 2 * cx + 1, 4 * cy, trace, [0x08, 0x10, 0x20, 0x80]);
    left + right
}

/// What a cell amounts to: its pattern, or nothing where no dot is lit, for the
/// blank pattern would paint over what is there.
pub open spec fn braille_cell(
    area: Rect,
    tops: Seq<usize>,
    color: Color,
    cx: int,
    cy: int,
    trace: bool,
) -> Seq<Stroke> {
    if dots(tops, cx, cy, trace) == 0 {
        Seq::empty()
    } else {
        seq![
            Stroke::Glyph {
                x: (area.x + cx) as u16,
                y: (area.y + cy) as u16,
                glyph: (BRAILLE_BASE + dots(tops, cx, cy, trace)) as char,
                fg: color,
            },
        ]
    }
}

/// What the first cells of a column amount to.
pub open spec fn braille_column(
    area: Rect,
    tops: Seq<usize>,
    color: Color,
    cx: int,
    cells: nat,
    trace: bool,
) -> Seq<Stroke>
    decreases cells,
{
    if cells == 0 {
        Seq::empty()
    } else {
        braille_column(area, tops, color, cx, (cells - 1) as nat, trace) + braille_cell(
            area,
            tops,
            color,
            cx,
            cells - 1,
            trace,
        )
    }
}

/// What the first columns of a braille spectrum amount to, each in its colour.
pub open spec fn braille(
    area: Rect,
    tops: Seq<usize>,
    colors: Seq<Color>,
    columns: nat,
    trace: bool,
) -> Seq<Stroke>
    decreases columns,
{
    if columns == 0 {
        Seq::empty()
    } else {
        braille(area, tops, colors, (columns - 1) as nat, trace) + braille_column(
            area,
            tops,
            colors[columns - 1],
            columns - 1,
            area.height as nat,
            trace,
        )
    }
}

/// Draw one cell of a braille spectrum.
fn draw_braille_cell(
    area: Rect,
    buf: &mut Screen,
    tops: &Vec<usize>,
    color: Color,
    cx: u16,
    cy: u16,
    trace: bool,
)
    requires
        cx < area.width,
        cy < area.height,
        area.x + area.width <= u16::MAX,
        area.y + area.height <= u16::MAX,
        tops@.len() == 2 * area.width,
    ensures
        shows(
            *old(buf),
            *final(buf),
            braille_cell(area, tops@, color, cx as int, cy as int, trace),
        ),
{
    let ghost start = *buf;
    proof {
        lemma_fresh(start);
    }
    let n: u32 = braille_dots(tops, cx as usize, cy as usize, trace);
    if n == 0 {
        return;
    }
    if let Some(glyph) = char::from_u32(BRAILLE_BASE + n) {
        set_glyph(buf, area.x + cx, area.y + cy, glyph, color);
        proof {
            let stroke = braille_cell(area, tops@, color, cx as int, cy as int, trace)[0];
            lemma_next(start, start, *buf, Seq::empty(), stroke);
            assert(Seq::<Stroke>::empty().push(stroke) =~= braille_cell(
                area,
                tops@,
                color,
                cx as int,
                cy as int,
                trace,
            ));
        }
    }
}

/// Draw a braille spectrum: two by four dots a cell. `tops` has the sub-row that
/// each of the two sub-columns of a column reaches up to, and `colors` the colour
/// of the column.
pub fn draw_braille(
    area: Rect,
    buf: &mut Screen,
    tops: &Vec<usize>,
    colors: &Vec<Color>,
    trace: bool,
)
    requires
        area.x + area.width <= u16::MAX,
        area.y + area.height <= u16::MAX,
        tops@.len() == 2 * area.width,
        colors@.len() == area.width,
    ensures
        shows(*old(buf), *final(buf), braille(area, tops@, colors@, area.width as nat, trace)),
{
    let ghost start = *buf;
    proof {
        lemma_fresh(start);
    }
    let mut cx: u16 = 0;
    while cx < area.width
        invariant
            cx <= area.width,
            area.x + area.width <= u16::MAX,
            area.y + area.height <= u16::MAX,
            tops@.len() == 2 * area.width,
            colors@.len() == area.width,
            shows(start, *buf, braille(area, tops@, colors@, cx as nat, trace)),
        decreases area.width - cx,
    {
        let color: Color = colors[cx as usize];
        let ghost here = *buf;
        proof {
            lemma_fresh(here);
        }
        let mut cy: u16 = 0;
        while cy < area.height
            invariant
                cy <= area.height,
                cx < area.width,
                area.x + area.width <= u16::MAX,
                area.y + area.height <= u16::MAX,
                tops@.len() == 2 * area.width,
                shows(here, *buf, braille_column(area, tops@, color, cx as int, cy as nat, trace)),
            decreases area.height - cy,
        {
            let ghost before = *buf;
            draw_braille_cell(area, buf, tops, color, cx, cy, trace);
            proof {
                lemma_more(
                    here,
                    before,
                    *buf,
                    braille_column(area, tops@, color, cx as int, cy as nat, trace),
                    braille_cell(area, tops@, color, cx as int, cy as int, trace),
                );
            }
            cy += 1;
        }
        proof {
            lemma_more(
                start,
                here,
                *buf,
                braille(area, tops@, colors@, cx as nat, trace),
                braille_column(area, tops@, color, cx as int, area.height as nat, trace),
            );
        }
        cx += 1;
    }
}

/// The block that fills so many eighths of a cell, from the bottom.
pub open spec fn eighths_glyph(part: int) -> char {
    (0x2580 + part) as char
}

/// The block that fills so many eighths of a cell, from the bottom.
pub fn eighth_block(part: usize) -> (c: char)
    requires
        1 <= part <= 8,
    ensures
        c == eighths_glyph(part as int),
{
    match part {
        1 => '\u{2581}',
        2 => '\u{2582}',
        3 => '\u{2583}',
        4 => '\u{2584}',
        5 => '\u{2585}',
        6 => '\u{2586}',
        7 => '\u{2587}',
        _ => '\u{2588}',
    }
}

/// How many full blocks a bar of so many eighths has.
pub open spec fn full_blocks(area: Rect, eighths: int) -> int {
    if eighths / 8 < area.height {
        eighths / 8
    } else {
        area.height as int
    }
}

/// What a bar amounts to: full blocks from the bottom up, and what is left of it
/// in the cell above them.
pub open spec fn bar(area: Rect, x: int, eighths: int, color: Color) -> Seq<Stroke> {
    let bottom = area.y + area.height - 1;
    let stack = Seq::new(
        full_blocks(area, eighths) as nat,
        |i: int|
            Stroke::Glyph {
                x: (area.x + x) as u16,
                y: (bottom - i) as u16,
                glyph: eighths_glyph(8),
                fg: color,
            },
    );
    if eighths % 8 > 0 && eighths / 8 < area.height {
        stack.push(
            Stroke::Glyph {
                x: (area.x + x) as u16,
                y: (bottom - eighths / 8) as u16,
                glyph: eighths_glyph(eighths % 8),
                fg: color,
            },
        )
    } else {
        stack
    }
}

/// What the first bars of a block spectrum amount to.
pub open spec fn bars(
    area: Rect,
    eighths: Seq<usize>,
    colors: Seq<Color>,
    columns: nat,
) -> Seq<Stroke>
    decreases columns,
{
    if columns == 0 {
        Seq::empty()
    } else {
        bars(area, eighths, colors, (columns - 1) as nat) + bar(
            area,
            columns - 1,
            eighths[columns - 1] as int,
            colors[columns - 1],
        )
    }
}

/// Draw one bar.
fn draw_bar(area: Rect, buf: &mut Screen, x: u16, eighths: usize, color: Color)
    requires
        x < area.width,
        area.height > 0,
        area.x + area.width <= u16::MAX,
        area.y + area.height <= u16::MAX,
    ensures
        shows(*old(buf), *final(buf), bar(area, x as int, eighths as int, color)),
{
    let ghost start = *buf;
    let ghost want = bar(area, x as int, eighths as int, color);
    let height: usize = area.height as usize;
    let whole: usize = eighths / 8;
    let part: usize = eighths % 8;
    let bottom: u16 = area.y + (area.height - 1);
    let full: usize = if whole < height {
        whole
    } else {
        height
    };
    proof {
        lemma_fresh(start);
        assert(want.take(0) =~= Seq::<Stroke>::empty());
    }
    let mut i: usize = 0;
    while i < full
        invariant
            i <= full,
            full == full_blocks(area, eighths as int),
            full <= area.height,
            x < area.width,
            area.height > 0,
            bottom == area.y + area.height - 1,
            area.x + area.width <= u16::MAX,
            area.y + area.height <= u16::MAX,
            want == bar(area, x as int, eighths as int, color),
            shows(start, *buf, want.take(i as int)),
        decreases full - i,
    {
        let ghost before = *buf;
        set_glyph(buf, area.x + x, bottom - i as u16, eighth_block(8), color);
        proof {
            let stroke = want[i as int];
            lemma_next(start, before, *buf, want.take(i as int), stroke);
            assert(want.take(i as int).push(stroke) =~= want.take(i + 1));
        }
        i += 1;
    }
    if part > 0 && whole < height {
        let ghost before = *buf;
        set_glyph(buf, area.x + x, bottom - whole as u16, eighth_block(part), color);
        proof {
            let stroke = want[i as int];
            lemma_next(start, before, *buf, want.take(i as int), stroke);
            assert(want.take(i as int).push(stroke) =~= want);
        }
    } else {
        assert(want.take(i as int) =~= want);
    }
}

/// Draw a spectrum in blocks: one bar a column, of so many eighths of a cell.
pub fn draw_bars(area: Rect, buf: &mut Screen, eighths: &Vec<usize>, colors: &Vec<Color>)
    requires
        area.height > 0,
        area.x + area.width <= u16::MAX,
        area.y + area.height <= u16::MAX,
        eighths@.len() == area.width,
        colors@.len() == area.width,
    ensures
        shows(*old(buf), *final(buf), bars(area, eighths@, colors@, area.width as nat)),
{
    let ghost start = *buf;
    proof {
        lemma_fresh(start);
    }
    let mut x: u16 = 0;
    while x < area.width
        invariant
            x <= area.width,
            area.height > 0,
            area.x + area.width <= u16::MAX,
            area.y + area.height <= u16::MAX,
            eighths@.len() == area.width,
            colors@.len() == area.width,
            shows(start, *buf, bars(area, eighths@, colors@, x as nat)),
        decreases area.width - x,
    {
        let ghost before = *buf;
        draw_bar(area, buf, x, eighths[x as usize], colors[x as usize]);
        proof {
            lemma_more(
                start,
                before,
                *buf,
                bars(area, eighths@, colors@, x as nat),
                bar(area, x as int, eighths@[x as int] as int, colors@[x as int]),
            );
        }
        x += 1;
    }
}

/// What a cell of the waterfall amounts to: one line above another.
pub open spec fn water_cell(area: Rect, x: int, y: int, upper: Color, lower: Color) -> Seq<
    Stroke,
> {
    seq![
        Stroke::Glyph {
            x: (area.x + x) as u16,
            y: (area.y + y) as u16,
            glyph: HALF,
            fg: upper,
        },
        Stroke::Back { x: (area.x + x) as u16, y: (area.y + y) as u16, bg: lower },
    ]
}

/// What the first cells of a row of the waterfall amount to.
pub open spec fn water_row(
    area: Rect,
    y: int,
    upper: Seq<Color>,
    lower: Seq<Color>,
    columns: nat,
) -> Seq<Stroke>
    decreases columns,
{
    if columns == 0 {
        Seq::empty()
    } else {
        water_row(area, y, upper, lower, (columns - 1) as nat) + water_cell(
            area,
            columns - 1,
            y,
            upper[columns - 1],
            lower[columns - 1],
        )
    }
}

/// What the first rows of the waterfall amount to, two lines a row.
pub open spec fn water(area: Rect, lines: Seq<Seq<Color>>, rows: nat) -> Seq<Stroke>
    decreases rows,
{
    if rows == 0 {
        Seq::empty()
    } else {
        water(area, lines, (rows - 1) as nat) + water_row(
            area,
            rows - 1,
            lines[2 * (rows - 1)],
            lines[2 * (rows - 1) + 1],
            area.width as nat,
        )
    }
}

/// Draw one row of the waterfall.
pub fn draw_water_row(
    area: Rect,
    buf: &mut Screen,
    y: u16,
    upper: &Vec<Color>,
    lower: &Vec<Color>,
)
    requires
        y < area.height,
        area.x + area.width <= u16::MAX,
        area.y + area.height <= u16::MAX,
        upper@.len() == area.width,
        lower@.len() == area.width,
    ensures
        shows(
            *old(buf),
            *final(buf),
            water_row(area, y as int, upper@, lower@, area.width as nat),
        ),
{
    let ghost start = *buf;
    proof {
        lemma_fresh(start);
    }
    let mut x: u16 = 0;
    while x < area.width
        invariant
            x <= area.width,
            y < area.height,
            area.x + area.width <= u16::MAX,
            area.y + area.height <= u16::MAX,
            upper@.len() == area.width,
            lower@.len() == area.width,
            shows(start, *buf, water_row(area, y as int, upper@, lower@, x as nat)),
        decreases area.width - x,
    {
        let ghost before = *buf;
        set_glyph(buf, area.x + x, area.y + y, HALF, upper[x as usize]);
        let ghost between = *buf;
        set_back(buf, area.x + x, area.y + y, lower[x as usize]);
        proof {
            let done = water_row(area, y as int, upper@, lower@, x as nat);
            let cell = water_cell(area, x as int, y as int, upper@[x as int], lower@[x as int]);
            lemma_next(start, before, between, done, cell[0]);
            lemma_next(start, between, *buf, done.push(cell[0]), cell[1]);
            assert(done.push(cell[0]).push(cell[1]) =~= done + cell);
        }
        x += 1;
    }
}

} // verus!
