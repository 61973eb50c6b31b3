//! The UI of the compact radio: a pane for the statistics, and the signal.

use ratatui::buffer::Buffer as Screen;
use vstd::prelude::*;

use crate::tui::paint::{
    claimed, draw_block, edge, fits, lemma_fresh, lemma_next, shows, side_by_side,
    split_horizontal, taken, whole, Chrome, Color, Constraint, Rect, Stroke, Style,
};
use crate::tui::signal_view::{Scales, SignalView, Y_AXIS_WIDTH};
use crate::tui::tui::KeyCode;
use crate::tui::tui_states::TuiStates;

verus! {

/// What a key does.
#[derive(Clone, Copy, Debug, PartialEq, Eq, Structural)]
pub enum Turn {
    /// Leave.
    Quit,
    /// Move the bottom of the colour range by so many dB.
    Floor(i32),
    /// Nothing.
    Stay,
}

/// Act on a key.
pub fn on_key(code: KeyCode) -> (t: Turn)
    ensures
        t == (match code {
            KeyCode::Esc => Turn::Quit,
            KeyCode::Char(c) => if c == 'q' {
                Turn::Quit
            } else {
                Turn::Stay
            },
            KeyCode::Up => Turn::Floor(2),
            KeyCode::Down => Turn::Floor(-2i32),
            _ => Turn::Stay,
        }),
{
    match code {
        KeyCode::Esc => Turn::Quit,
        KeyCode::Char(c) => {
            if c == 'q' {
                Turn::Quit
            } else {
                Turn::Stay
            }
        },
        KeyCode::Up => Turn::Floor(2),
        KeyCode::Down => Turn::Floor(-2),
        _ => Turn::Stay,
    }
}

/// The statistics and the signal.
pub open spec fn panes() -> Seq<Constraint> {
    seq![Constraint::Percentage(30), Constraint::Fill(1)]
}

/// The frame of the statistics.
pub open spec fn stats_frame(area: Rect) -> Stroke {
    Stroke::Block {
        title: "Stats"@,
        chrome: Chrome {
            style: Style::plain(),
            title_style: Style::plain(),
            border_style: Style::plain(),
        },
        area,
    }
}

/// The two panes are these.
pub open spec fn split(area: Rect, stats: Rect, view: Rect) -> bool {
    side_by_side(area, panes(), seq![stats, view])
}

/// The statistics have three tenths of the columns, to the nearest one, on the
/// left, and the signal has the rest.
pub proof fn signal_gets_seven_tenths(area: Rect, stats: Rect, view: Rect)
    requires
        split(area, stats, view),
        area.x + area.width <= u16::MAX,
    ensures
        stats.x == area.x,
        stats.width == (30 * area.width + 50) / 100,
        view.x == stats.x + stats.width,
        view.x + view.width == area.x + area.width,
        stats.height == area.height,
        view.height == area.height,
{
    let parts = seq![stats, view];
    let cs = panes();
    let w = area.spec_right() - area.x;
    reveal_with_fuel(claimed, 3);
    reveal_with_fuel(taken, 3);
    assert(parts[0] == stats && parts[1] == view);
    assert(cs.drop_last() =~= seq![Constraint::Percentage(30)]);
    assert(cs.drop_last().drop_last() =~= Seq::<Constraint>::empty());
    assert(claimed(cs, w) == 30 * w);
    assert(fits(cs, w));
    assert(edge(cs, w, 1) == (30 * w + 50) / 100 && edge(cs, w, 2) == w);
}

/// Draw the whole screen: the signal fills what the statistics leave.
pub fn draw<
    D: Fn(i64, i64, usize, usize) -> String,
    T: Fn(i64, i64, usize, usize) -> String,
    Q: Fn(i64, i64, usize, usize) -> String,
    H: Fn(i32, usize) -> usize,
    E: Fn(i32, usize) -> usize,
    K: Fn(i32) -> Color,
>(
    area: Rect,
    buf: &mut Screen,
    signal: &SignalView,
    states: &TuiStates,
    scales: &Scales<D, T, Q, H, E, K>,
)
    requires
        signal@.wf(),
        signal@.can_draw(*scales),
        whole(*old(buf)),
        area.x + area.width + Y_AXIS_WIDTH <= u16::MAX,
        area.y + area.height <= u16::MAX,
    ensures
        exists|stats: Rect, view: Rect, framed: Screen|
            {
                &&& #[trigger] split(area, stats, view)
                &&& #[trigger] shows(*old(buf), framed, seq![stats_frame(stats)])
                &&& signal@.panel_shown(view, *states, *scales, framed, *final(buf))
            },
{
    let mut cs: Vec<Constraint> = Vec::new();
    cs.push(Constraint::Percentage(30));
    cs.push(Constraint::Fill(1));
    assert(cs@ =~= panes());
    let parts = split_horizontal(area, &cs);
    let stats = parts[0];
    let view = parts[1];
    let ghost start = *buf;
    proof {
        assert(parts@ =~= seq![stats, view]);
        assert(parts@[1] == view);
        assert(split(area, stats, view));
        reveal_strlit("Stats");
        lemma_fresh(start);
    }
    let plain = Chrome {
        style: Style::new(),
        title_style: Style::new(),
        border_style: Style::new(),
    };
    draw_block(buf, "Stats", plain, stats);
    let ghost framed = *buf;
    proof {
        lemma_next(start, start, framed, Seq::empty(), stats_frame(stats));
        assert(Seq::<Stroke>::empty().push(stats_frame(stats)) =~= seq![stats_frame(stats)]);
    }
    signal.render(view, buf, states, scales);
}

} // verus!
