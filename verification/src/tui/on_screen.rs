//! What the plots of the signal panel leave on the screen, cell by cell.

use vstd::prelude::*;

use crate::tui::paint::{
    color_code, drawn, lemma_drawn_add, stroked, CellView, Color, Rect, Stroke,
};
use crate::tui::plot::{
    bar, bars, braille, braille_cell, braille_column, dots, water, water_cell, water_row,
};

verus! {

/// What a dot of a braille character counts: the left column is numbered down to
/// the third row, then the right one, and the fourth row comes last.
pub open spec fn dot_weight(dy: int, dx: int) -> int {
    if dy == 3 {
        if dx == 0 {
            64
        } else {
            128
        }
    } else if dx == 0 {
        if dy == 0 {
            1
        } else if dy == 1 {
            2
        } else {
            4
        }
    } else {
        if dy == 0 {
            8
        } else if dy == 1 {
            16
        } else {
            32
        }
    }
}

/// The cell shows one braille character, and it has the dot in row `dy` and
/// column `dx`.
pub open spec fn has_dot(cell: CellView, dy: int, dx: int) -> bool {
    &&& cell.symbol.len() == 1
    &&& 0x2800 <= cell.symbol[0] as int <= 0x28FF
    &&& ((cell.symbol[0] as int - 0x2800) / dot_weight(dy, dx)) % 2 == 1
}

/// The dot of sub-column `sx` in sub-row `y`, counted from the top, belongs to the
/// plot: it is at or below the tip of its bar; or, of a trace, between that tip
/// and the one to its left.
pub open spec fn belongs(tops: Seq<usize>, sx: int, y: int, trace: bool) -> bool {
    if trace {
        if sx == 0 {
            y == tops[0]
        } else {
            (tops[sx - 1] <= y && y <= tops[sx]) || (tops[sx] <= y && y <= tops[sx - 1])
        }
    } else {
        tops[sx] <= y
    }
}

/// The lowest bit of a number, and the rest.
proof fn lemma_half(n: int, bit: int, rest: int)
    requires
        0 <= bit <= 1,
        n == bit + 2 * rest,
    ensures
        n / 2 == rest,
        n % 2 == bit,
{
}

/// A number in eight bits.
proof fn lemma_bits(
    n: int,
    a: int,
    b: int,
    c: int,
    d: int,
    e: int,
    f: int,
    g: int,
    h: int,
)
    requires
        0 <= a <= 1,
        0 <= b <= 1,
        0 <= c <= 1,
        0 <= d <= 1,
        0 <= e <= 1,
        0 <= f <= 1,
        0 <= g <= 1,
        0 <= h <= 1,
        n == a + 2 * b + 4 * c + 8 * d + 16 * e + 32 * f + 64 * g + 128 * h,
    ensures
        0 <= n <= 255,
        (n / 1) % 2 == a,
        (n / 2) % 2 == b,
        (n / 4) % 2 == c,
        (n / 8) % 2 == d,
        (n / 16) % 2 == e,
        (n / 32) % 2 == f,
        (n / 64) % 2 == g,
        (n / 128) % 2 == h,
        n == 0 <==> a == 0 && b == 0 && c == 0 && d == 0 && e == 0 && f == 0 && g == 0 && h == 0,
{
    let n7 = h;
    let n6 = g + 2 * n7;
    let n5 = f + 2 * n6;
    let n4 = e + 2 * n5;
    let n3 = d + 2 * n4;
    let n2 = c + 2 * n3;
    let n1 = b + 2 * n2;
    lemma_half(n, a, n1);
    lemma_half(n1, b, n2);
    lemma_half(n2, c, n3);
    lemma_half(n3, d, n4);
    lemma_half(n4, e, n5);
    lemma_half(n5, f, n6);
    lemma_half(n6, g, n7);
    assert(n / 4 == (n / 2) / 2);
    assert(n / 8 == (n / 4) / 2);
    assert(n / 16 == (n / 8) / 2);
    assert(n / 32 == (n / 16) / 2);
    assert(n / 64 == (n / 32) / 2);
    assert(n / 128 == (n / 64) / 2);
}

/// One when it holds.
spec fn one_if(b: bool) -> int {
    if b {
        1
    } else {
        0
    }
}

/// The character of a cell has the dots that belong to the plot.
proof fn lemma_dots(tops: Seq<usize>, cx: int, cy: int, trace: bool)
    requires
        0 <= cx,
        2 * cx + 1 < tops.len(),
    ensures
        ({
            let n = dots(tops, cx, cy, trace);
            &&& 0 <= n <= 255
            &&& forall|dy: int, dx: int|
                0 <= dy < 4 && 0 <= dx < 2 ==> ((n / #[trigger] dot_weight(dy, dx)) % 2 == 1
                    <==> belongs(tops, 2 * cx + dx, 4 * cy + dy, trace))
            &&& n == 0 <==> forall|dy: int, dx: int|
                0 <= dy < 4 && 0 <= dx < 2 ==> !#[trigger] belongs(
                    tops,
                    2 * cx + dx,
                    4 * cy + dy,
                    trace,
                )
        }),
{
    let n = dots(tops, cx, cy, trace);
    let l = 2 * cx;
    let r = 2 * cx + 1;
    let y = 4 * cy;
    let a = one_if(belongs(tops, l + 0, y + 0, trace));
    let b = one_if(belongs(tops, l + 0, y + 1, trace));
    let c = one_if(belongs(tops, l + 0, y + 2, trace));
    let d = one_if(belongs(tops, l + 1, y + 0, trace));
    let e = one_if(belongs(tops, l + 1, y + 1, trace));
    let f = one_if(belongs(tops, l + 1, y + 2, trace));
    let g = one_if(belongs(tops, l + 0, y + 3, trace));
    let h = one_if(belongs(tops, l + 1, y + 3, trace));
    lemma_bits(n, a, b, c, d, e, f, g, h);
    assert forall|dy: int, dx: int| 0 <= dy < 4 && 0 <= dx < 2 implies ((n
        / #[trigger] dot_weight(dy, dx)) % 2 == 1 <==> belongs(
        tops,
        2 * cx + dx,
        4 * cy + dy,
        trace,
    )) by {
        assert(dy == 0 || dy == 1 || dy == 2 || dy == 3);
        assert(dx == 0 || dx == 1);
    }
    if n == 0 {
        assert forall|dy: int, dx: int| 0 <= dy < 4 && 0 <= dx < 2 implies !#[trigger] belongs(
            tops,
            2 * cx + dx,
            4 * cy + dy,
            trace,
        ) by {
            assert(dy == 0 || dy == 1 || dy == 2 || dy == 3);
            assert(dx == 0 || dx == 1);
        }
    }
}

/// One glyph upon a screen.
proof fn lemma_glyph(screen: Map<(u16, u16), CellView>, frame: Rect, stroke: Stroke)
    ensures
        drawn(screen, frame, seq![stroke]) == stroked(screen, frame, stroke),
        drawn(screen, frame, Seq::empty()) == screen,
{
    let one = seq![stroke];
    assert(one.drop_last() =~= Seq::<Stroke>::empty());
    assert(drawn(screen, frame, Seq::<Stroke>::empty()) == screen);
}

/// The first cells of a column of braille.
proof fn lemma_braille_column(
    screen: Map<(u16, u16), CellView>,
    frame: Rect,
    area: Rect,
    tops: Seq<usize>,
    color: Color,
    cx: int,
    n: nat,
    trace: bool,
    p: (u16, u16),
)
    requires
        n <= area.height,
        0 <= cx < area.width,
        area.x + area.width <= u16::MAX,
        area.y + area.height <= u16::MAX,
        screen.contains_key(p),
    ensures
        ({
            let after = drawn(screen, frame, braille_column(area, tops, color, cx, n, trace));
            let cy = p.1 - area.y;
            &&& after.contains_key(p)
            &&& after[p] == if p.0 == area.x + cx && 0 <= cy < n && dots(tops, cx, cy, trace) != 0 {
                CellView {
                    symbol: seq![(0x2800 + dots(tops, cx, cy, trace)) as char],
                    fg: color_code(color),
                    ..screen[p]
                }
            } else {
                screen[p]
            }
        }),
    decreases n,
{
    if n == 0 {
        assert(braille_column(area, tops, color, cx, n, trace) =~= Seq::<Stroke>::empty());
    } else {
        let m = (n - 1) as nat;
        lemma_braille_column(screen, frame, area, tops, color, cx, m, trace, p);
        let done = braille_column(area, tops, color, cx, m, trace);
        let cell = braille_cell(area, tops, color, cx, n - 1, trace);
        lemma_drawn_add(screen, frame, done, cell);
        let between = drawn(screen, frame, done);
        if dots(tops, cx, n - 1, trace) == 0 {
            assert(cell =~= Seq::<Stroke>::empty());
        } else {
            lemma_glyph(between, frame, cell[0]);
            assert(cell =~= seq![cell[0]]);
        }
    }
}

/// The first columns of braille.
proof fn lemma_braille(
    screen: Map<(u16, u16), CellView>,
    frame: Rect,
    area: Rect,
    tops: Seq<usize>,
    colors: Seq<Color>,
    n: nat,
    trace: bool,
    p: (u16, u16),
)
    requires
        n <= area.width,
        area.x + area.width <= u16::MAX,
        area.y + area.height <= u16::MAX,
        screen.contains_key(p),
    ensures
        ({
            let after = drawn(screen, frame, braille(area, tops, colors, n, trace));
            let cx = p.0 - area.x;
            let cy = p.1 - area.y;
            &&& after.contains_key(p)
            &&& after[p] == if 0 <= cx < n && 0 <= cy < area.height && dots(tops, cx, cy, trace)
                != 0 {
                CellView {
                    symbol: seq![(0x2800 + dots(tops, cx, cy, trace)) as char],
                    fg: color_code(colors[cx]),
                    ..screen[p]
                }
            } else {
                screen[p]
            }
        }),
    decreases n,
{
    if n == 0 {
        assert(braille(area, tops, colors, n, trace) =~= Seq::<Stroke>::empty());
    } else {
        let m = (n - 1) as nat;
        lemma_braille(screen, frame, area, tops, colors, m, trace, p);
        let done = braille(area, tops, colors, m, trace);
        let column = braille_column(
            area,
            tops,
            colors[n - 1],
            n - 1,
            area.height as nat,
            trace,
        );
        lemma_drawn_add(screen, frame, done, column);
        let between = drawn(screen, frame, done);
        lemma_braille_column(
            between,
            frame,
            area,
            tops,
            colors[n - 1],
            n - 1,
            area.height as nat,
            trace,
            p,
        );
    }
}

/// A braille spectrum on the screen: in the cell at column `cx` and row `cy` of the
/// area, counted from its left and from its top, exactly those dots are set that
/// belong to the plot, in the colour of the column. A cell that none belongs to,
/// and one outside of the area, is as it was.
pub proof fn braille_dots_are_where_they_belong(
    screen: Map<(u16, u16), CellView>,
    frame: Rect,
    area: Rect,
    tops: Seq<usize>,
    colors: Seq<Color>,
    trace: bool,
    p: (u16, u16),
)
    requires
        area.x + area.width <= u16::MAX,
        area.y + area.height <= u16::MAX,
        tops.len() == 2 * area.width,
        colors.len() == area.width,
        screen.contains_key(p),
    ensures
        ({
            let before = screen[p];
            let after = drawn(
                screen,
                frame,
                braille(area, tops, colors, area.width as nat, trace),
            )[p];
            let cx = p.0 - area.x;
            let cy = p.1 - area.y;
            let inside = 0 <= cx < area.width && 0 <= cy < area.height;
            let blank = forall|dy: int, dx: int|
                0 <= dy < 4 && 0 <= dx < 2 ==> !#[trigger] belongs(
                    tops,
                    2 * cx + dx,
                    4 * cy + dy,
                    trace,
                );
            &&& !inside || blank ==> after == before
            &&& inside && !blank ==> {
                &&& forall|dy: int, dx: int|
                    0 <= dy < 4 && 0 <= dx < 2 ==> (#[trigger] has_dot(after, dy, dx)
                        <==> belongs(tops, 2 * cx + dx, 4 * cy + dy, trace))
                &&& after.fg == color_code(colors[cx])
                &&& after.bg == before.bg
                &&& after.modifiers == before.modifiers
            }
        }),
{
    lemma_braille(screen, frame, area, tops, colors, area.width as nat, trace, p);
    let cx = p.0 - area.x;
    let cy = p.1 - area.y;
    if 0 <= cx < area.width && 0 <= cy < area.height {
        lemma_dots(tops, cx, cy, trace);
        let n = dots(tops, cx, cy, trace);
        assert(((0x2800 + n) as char) as int == 0x2800 + n);
        let after = drawn(
            screen,
            frame,
            braille(area, tops, colors, area.width as nat, trace),
        )[p];
        if n != 0 {
            assert forall|dy: int, dx: int| 0 <= dy < 4 && 0 <= dx < 2 implies (
            #[trigger] has_dot(after, dy, dx) <==> belongs(
                tops,
                2 * cx + dx,
                4 * cy + dy,
                trace,
            )) by {
                assert((n / dot_weight(dy, dx)) % 2 == 1 <==> belongs(
                    tops,
                    2 * cx + dx,
                    4 * cy + dy,
                    trace,
                ));
            }
        }
    }
}

/// The first blocks of a bar.
proof fn lemma_bar_part(
    screen: Map<(u16, u16), CellView>,
    frame: Rect,
    area: Rect,
    x: int,
    eighths: int,
    color: Color,
    n: int,
    p: (u16, u16),
)
    requires
        0 <= x < area.width,
        0 <= eighths,
        0 <= n <= bar(area, x, eighths, color).len(),
        area.height > 0,
        area.x + area.width <= u16::MAX,
        area.y + area.height <= u16::MAX,
        screen.contains_key(p),
    ensures
        ({
            let after = drawn(screen, frame, bar(area, x, eighths, color).take(n));
            let r = area.y + area.height - 1 - p.1;
            let left = eighths - 8 * r;
            &&& after.contains_key(p)
            &&& after[p] == if p.0 == area.x + x && 0 <= r < n && left > 0 {
                CellView {
                    symbol: seq![
                        (0x2580 + if left > 8 {
                            8
                        } else {
                            left
                        }) as char,
                    ],
                    fg: color_code(color),
                    ..screen[p]
                }
            } else {
                screen[p]
            }
        }),
    decreases n,
{
    let all = bar(area, x, eighths, color);
    if n == 0 {
        assert(all.take(0) =~= Seq::<Stroke>::empty());
    } else {
        lemma_bar_part(screen, frame, area, x, eighths, color, n - 1, p);
        assert(all.take(n).drop_last() =~= all.take(n - 1));
        assert(all.take(n).last() == all[n - 1]);
        assert(8 * (n - 1) < eighths);
    }
}

/// The first bars.
proof fn lemma_bars(
    screen: Map<(u16, u16), CellView>,
    frame: Rect,
    area: Rect,
    eighths: Seq<usize>,
    colors: Seq<Color>,
    n: nat,
    p: (u16, u16),
)
    requires
        n <= area.width,
        area.height > 0,
        area.x + area.width <= u16::MAX,
        area.y + area.height <= u16::MAX,
        screen.contains_key(p),
    ensures
        ({
            let after = drawn(screen, frame, bars(area, eighths, colors, n));
            let cx = p.0 - area.x;
            let r = area.y + area.height - 1 - p.1;
            let left = eighths[cx] - 8 * r;
            &&& after.contains_key(p)
            &&& after[p] == if 0 <= cx < n && 0 <= r < area.height && left > 0 {
                CellView {
                    symbol: seq![
                        (0x2580 + if left > 8 {
                            8
                        } else {
                            left
                        }) as char,
                    ],
                    fg: color_code(colors[cx]),
                    ..screen[p]
                }
            } else {
                screen[p]
            }
        }),
    decreases n,
{
    if n == 0 {
        assert(bars(area, eighths, colors, n) =~= Seq::<Stroke>::empty());
    } else {
        let m = (n - 1) as nat;
        lemma_bars(screen, frame, area, eighths, colors, m, p);
        let done = bars(area, eighths, colors, m);
        let one = bar(area, n - 1, eighths[n - 1] as int, colors[n - 1]);
        lemma_drawn_add(screen, frame, done, one);
        let between = drawn(screen, frame, done);
        lemma_bar_part(
            between,
            frame,
            area,
            n - 1,
            eighths[n - 1] as int,
            colors[n - 1],
            one.len() as int,
            p,
        );
        assert(one.take(one.len() as int) =~= one);
    }
}

/// A spectrum in blocks on the screen: every bar stands on the bottom row of the
/// area and fills its eighths of a cell upwards. A cell that the bar fills is a
/// full block, the one its top is in is filled from below as far as it reaches,
/// and one above it, or outside of the area, is as it was.
pub proof fn bars_stand_on_the_bottom(
    screen: Map<(u16, u16), CellView>,
    frame: Rect,
    area: Rect,
    eighths: Seq<usize>,
    colors: Seq<Color>,
    p: (u16, u16),
)
    requires
        area.height > 0,
        area.x + area.width <= u16::MAX,
        area.y + area.height <= u16::MAX,
        eighths.len() == area.width,
        colors.len() == area.width,
        screen.contains_key(p),
    ensures
        ({
            let before = screen[p];
            let after = drawn(screen, frame, bars(area, eighths, colors, area.width as nat))[p];
            let cx = p.0 - area.x;
            let inside = 0 <= cx < area.width && area.y <= p.1 < area.y + area.height;
            let below = area.y + area.height - 1 - p.1;
            &&& !inside || eighths[cx] <= 8 * below ==> after == before
            &&& inside && eighths[cx] > 8 * below ==> {
                &&& after.symbol.len() == 1
                &&& eighths[cx] >= 8 * (below + 1) ==> after.symbol[0] == '\u{2588}'
                &&& eighths[cx] < 8 * (below + 1) ==> after.symbol[0] as int - 0x2580
                    == eighths[cx] - 8 * below
                &&& after.fg == color_code(colors[cx])
                &&& after.bg == before.bg
                &&& after.modifiers == before.modifiers
            }
        }),
{
    lemma_bars(screen, frame, area, eighths, colors, area.width as nat, p);
    let left = eighths[p.0 - area.x] - 8 * (area.y + area.height - 1 - p.1);
    assert(((0x2580 + 8) as char) == '\u{2588}');
    assert(0 < left <= 8 ==> ((0x2580 + left) as char) as int == 0x2580 + left);
}

/// The first cells of a row of the waterfall.
proof fn lemma_water_row(
    screen: Map<(u16, u16), CellView>,
    frame: Rect,
    area: Rect,
    y: int,
    upper: Seq<Color>,
    lower: Seq<Color>,
    n: nat,
    p: (u16, u16),
)
    requires
        n <= area.width,
        0 <= y < area.height,
        area.x + area.width <= u16::MAX,
        area.y + area.height <= u16::MAX,
        screen.contains_key(p),
    ensures
        ({
            let after = drawn(screen, frame, water_row(area, y, upper, lower, n));
            let cx = p.0 - area.x;
            &&& after.contains_key(p)
            &&& after[p] == if 0 <= cx < n && p.1 == area.y + y {
                CellView {
                    symbol: seq!['\u{2580}'],
                    fg: color_code(upper[cx]),
                    bg: color_code(lower[cx]),
                    ..screen[p]
                }
            } else {
                screen[p]
            }
        }),
    decreases n,
{
    if n == 0 {
        assert(water_row(area, y, upper, lower, n) =~= Seq::<Stroke>::empty());
    } else {
        let m = (n - 1) as nat;
        lemma_water_row(screen, frame, area, y, upper, lower, m, p);
        let done = water_row(area, y, upper, lower, m);
        let cell = water_cell(area, n - 1, y, upper[n - 1], lower[n - 1]);
        lemma_drawn_add(screen, frame, done, cell);
        let between = drawn(screen, frame, done);
        assert(cell =~= seq![cell[0]] + seq![cell[1]]);
        lemma_drawn_add(between, frame, seq![cell[0]], seq![cell[1]]);
        lemma_glyph(between, frame, cell[0]);
        lemma_glyph(stroked(between, frame, cell[0]), frame, cell[1]);
    }
}

/// The first rows of the waterfall.
proof fn lemma_water(
    screen: Map<(u16, u16), CellView>,
    frame: Rect,
    area: Rect,
    lines: Seq<Seq<Color>>,
    n: nat,
    p: (u16, u16),
)
    requires
        n <= area.height,
        area.x + area.width <= u16::MAX,
        area.y + area.height <= u16::MAX,
        screen.contains_key(p),
    ensures
        ({
            let after = drawn(screen, frame, water(area, lines, n));
            let cx = p.0 - area.x;
            let cy = p.1 - area.y;
            &&& after.contains_key(p)
            &&& after[p] == if 0 <= cx < area.width && 0 <= cy < n {
                CellView {
                    symbol: seq!['\u{2580}'],
                    fg: color_code(lines[2 * cy][cx]),
                    bg: color_code(lines[2 * cy + 1][cx]),
                    ..screen[p]
                }
            } else {
                screen[p]
            }
        }),
    decreases n,
{
    if n == 0 {
        assert(water(area, lines, n) =~= Seq::<Stroke>::empty());
    } else {
        let m = (n - 1) as nat;
        lemma_water(screen, frame, area, lines, m, p);
        let done = water(area, lines, m);
        let row = water_row(
            area,
            n - 1,
            lines[2 * (n - 1)],
            lines[2 * (n - 1) + 1],
            area.width as nat,
        );
        lemma_drawn_add(screen, frame, done, row);
        lemma_water_row(
            drawn(screen, frame, done),
            frame,
            area,
            n - 1,
            lines[2 * (n - 1)],
            lines[2 * (n - 1) + 1],
            area.width as nat,
            p,
        );
    }
}

/// The waterfall on the screen: row `cy` of the area, counted from its top, carries
/// two lines, the first as the upper half of every cell and the second as the
/// lower, the first line of all at the very top. Nothing outside of the area
/// changes.
pub proof fn lines_run_down_the_screen(
    screen: Map<(u16, u16), CellView>,
    frame: Rect,
    area: Rect,
    lines: Seq<Seq<Color>>,
    p: (u16, u16),
)
    requires
        area.x + area.width <= u16::MAX,
        area.y + area.height <= u16::MAX,
        lines.len() == 2 * area.height,
        screen.contains_key(p),
    ensures
        ({
            let before = screen[p];
            let after = drawn(screen, frame, water(area, lines, area.height as nat))[p];
            let cx = p.0 - area.x;
            let cy = p.1 - area.y;
            let inside = 0 <= cx < area.width && 0 <= cy < area.height;
            &&& !inside ==> after == before
            &&& inside ==> {
                &&& after.symbol == seq!['\u{2580}']
                &&& after.fg == color_code(lines[2 * cy][cx])
                &&& after.bg == color_code(lines[2 * cy + 1][cx])
                &&& after.modifiers == before.modifiers
            }
        }),
{
    lemma_water(screen, frame, area, lines, area.height as nat, p);
}

} // verus!
