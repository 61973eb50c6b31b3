//! The whole screen: a left column of readouts, the signal filling the rest, and
//! one status row across the bottom.

use ratatui::buffer::Buffer as Screen;
use vstd::prelude::*;

use crate::log;
use crate::tui::control_panel::{self, content_of, panel_strokes};
use crate::tui::control_view::Reading;
use crate::tui::info_view::{self, info_frame, info_laid_out, info_panel, InfoReading, InfoView};
use crate::tui::log_view::{legible, log_panel, reach, LogView};
use crate::tui::paint::{
    claimed, edge, fits, lemma_stays_whole, lemma_two_parts, shows, side_by_side,
    split_horizontal, split_vertical, stacked, taken, whole, words_everything, Color, Constraint, Rect, TEXT_MAX,
};
use crate::tui::signal_view::{
    lays_out, Scales, SignalLayout, SignalState, SignalView, Y_AXIS_WIDTH,
};
use crate::tui::status_bar::{bar_strokes, StatusBar};
use crate::tui::tui::{Tui, TuiView, SIDEBAR, STATUS_TTL};
use crate::tui::tui_states::{Pane, TuiStates};

verus! {

/// Where the panels stand.
#[derive(Clone, Copy, Debug, PartialEq, Eq, Structural)]
pub struct ScreenLayout {
    pub control: Rect,
    pub info: Rect,
    pub log: Rect,
    pub signal: Rect,
    pub status: Rect,
}

/// The panels above the status row.
pub open spec fn rows() -> Seq<Constraint> {
    seq![Constraint::Fill(1), Constraint::Length(1)]
}

/// The left column and the signal.
pub open spec fn halves() -> Seq<Constraint> {
    seq![Constraint::Length(SIDEBAR), Constraint::Fill(1)]
}

/// The left column: the two panels as high as they ask, and the log with the
/// rest.
pub open spec fn sidebar() -> Seq<Constraint> {
    seq![
        Constraint::Length(control_panel::HEIGHT),
        Constraint::Length(info_view::HEIGHT),
        Constraint::Fill(1),
    ]
}

/// A layout of the screen.
pub open spec fn divided(area: Rect, l: ScreenLayout, main: Rect, left: Rect) -> bool {
    &&& stacked(area, rows(), seq![main, l.status])
    &&& side_by_side(main, halves(), seq![left, l.signal])
    &&& stacked(left, sidebar(), seq![l.control, l.info, l.log])
}

/// The layout is one of the screen.
pub open spec fn divides(area: Rect, l: ScreenLayout) -> bool {
    exists|main: Rect, left: Rect| #[trigger] divided(area, l, main, left)
}

/// Divide the screen among the panels.
pub fn divide(area: Rect) -> (l: ScreenLayout)
    ensures
        divides(area, l),
{
    let mut cs: Vec<Constraint> = Vec::new();
    cs.push(Constraint::Fill(1));
    cs.push(Constraint::Length(1));
    assert(cs@ =~= rows());
    let across = split_vertical(area, &cs);
    let mut cs: Vec<Constraint> = Vec::new();
    cs.push(Constraint::Length(SIDEBAR));
    cs.push(Constraint::Fill(1));
    assert(cs@ =~= halves());
    let along = split_horizontal(across[0], &cs);
    let mut cs: Vec<Constraint> = Vec::new();
    cs.push(Constraint::Length(control_panel::HEIGHT));
    cs.push(Constraint::Length(info_view::HEIGHT));
    cs.push(Constraint::Fill(1));
    assert(cs@ =~= sidebar());
    let panels = split_vertical(along[0], &cs);
    let l = ScreenLayout {
        control: panels[0],
        info: panels[1],
        log: panels[2],
        signal: along[1],
        status: across[1],
    };
    proof {
        assert(across@ =~= seq![across@[0], l.status]);
        assert(along@ =~= seq![along@[0], l.signal]);
        assert(panels@ =~= seq![l.control, l.info, l.log]);
        assert(divided(area, l, across@[0], along@[0]));
    }
    l
}

/// Every panel lies on the screen.
proof fn lemma_on_screen(area: Rect, l: ScreenLayout)
    requires
        divides(area, l),
        area.x + area.width <= u16::MAX,
        area.y + area.height <= u16::MAX,
    ensures
        l.signal.x + l.signal.width <= area.x + area.width,
        l.signal.y + l.signal.height <= area.y + area.height,
        l.log.y + l.log.height <= area.y + area.height,
        l.control.x + l.control.width <= area.x + area.width,
        l.info.x + l.info.width <= area.x + area.width,
        l.log.x + l.log.width <= area.x + area.width,
        l.status.x + l.status.width <= area.x + area.width,
{
    let (main, left) = choose|main: Rect, left: Rect| #[trigger] divided(area, l, main, left);
    let a = seq![main, l.status];
    let b = seq![left, l.signal];
    let c = seq![l.control, l.info, l.log];
    assert(a[0] == main && a[1] == l.status);
    assert(b[0] == left && b[1] == l.signal);
    assert(c[0] == l.control && c[1] == l.info && c[2] == l.log);
}

/// Whatever the size of the screen, the panels stand in their order without a
/// gap: Control at the top of the left column, Info right below it and the log
/// below that; the signal right of them, and the status row below everything. A
/// column with room for them gives Control and Info the rows they ask for and the
/// log the rest.
pub proof fn panels_stand_in_order(area: Rect, l: ScreenLayout)
    requires
        divides(area, l),
        area.x + area.width <= u16::MAX,
        area.y + area.height <= u16::MAX,
    ensures
        l.control.x == area.x,
        l.info.x == area.x,
        l.log.x == area.x,
        l.control.y == area.y,
        l.info.y == l.control.y + l.control.height,
        l.log.y == l.info.y + l.info.height,
        l.signal.x == l.control.x + l.control.width,
        l.signal.y == area.y,
        l.status.x == area.x,
        l.status.y == l.signal.y + l.signal.height,
        area.height > control_panel::HEIGHT + info_view::HEIGHT ==> l.control.height
            == control_panel::HEIGHT && l.info.height == info_view::HEIGHT && l.log.y
            + l.log.height == l.status.y,
{
    let (main, left) = choose|main: Rect, left: Rect| #[trigger] divided(area, l, main, left);
    let a = seq![main, l.status];
    let b = seq![left, l.signal];
    let c = seq![l.control, l.info, l.log];
    assert(a[0] == main && a[1] == l.status);
    assert(b[0] == left && b[1] == l.signal);
    assert(c[0] == l.control && c[1] == l.info && c[2] == l.log);
    if area.height > control_panel::HEIGHT + info_view::HEIGHT {
        let height = area.spec_bottom() - area.y;
        reveal_with_fuel(claimed, 4);
        reveal_with_fuel(taken, 4);
        let r = rows();
        assert(r.drop_last() =~= seq![Constraint::Fill(1)]);
        assert(r.drop_last().drop_last() =~= Seq::<Constraint>::empty());
        assert(claimed(r, height) == 100);
        assert(fits(r, height));
        assert(edge(r, height, 1) == height - 1);
        let h = left.spec_bottom() - left.y;
        let s = sidebar();
        assert(s.drop_last() =~= seq![
            Constraint::Length(control_panel::HEIGHT),
            Constraint::Length(info_view::HEIGHT),
        ]);
        assert(s.drop_last().drop_last() =~= seq![Constraint::Length(control_panel::HEIGHT)]);
        assert(s.drop_last().drop_last().drop_last() =~= Seq::<Constraint>::empty());
        assert(claimed(s, h) == 100 * (control_panel::HEIGHT + info_view::HEIGHT));
        assert(fits(s, h));
        assert(edge(s, h, 3) == h);
    }
}

/// On a screen that has room for it, the left column is as wide as it asks and
/// the signal has the rest, above a status row at the very bottom.
pub proof fn signal_gets_the_rest(area: Rect, l: ScreenLayout)
    requires
        divides(area, l),
        area.x + area.width <= u16::MAX,
        area.y + area.height <= u16::MAX,
        area.width >= SIDEBAR,
        area.height >= 1,
    ensures
        l.control.width == SIDEBAR,
        l.info.width == SIDEBAR,
        l.log.width == SIDEBAR,
        l.signal.x == area.x + SIDEBAR,
        l.signal.width == area.width - SIDEBAR,
        l.signal.height == area.height - 1,
        l.status.y == area.y + area.height - 1,
        l.status.height == 1,
        l.status.width == area.width,
{
    let (main, left) = choose|main: Rect, left: Rect| #[trigger] divided(area, l, main, left);
    let a = seq![main, l.status];
    let b = seq![left, l.signal];
    let c = seq![l.control, l.info, l.log];
    assert(a[0] == main && a[1] == l.status);
    assert(b[0] == left && b[1] == l.signal);
    assert(c[0] == l.control && c[1] == l.info && c[2] == l.log);
    let height = area.spec_bottom() - area.y;
    reveal_with_fuel(claimed, 3);
    reveal_with_fuel(taken, 3);
    let r = rows();
    assert(r.drop_last() =~= seq![Constraint::Fill(1)]);
    assert(r.drop_last().drop_last() =~= Seq::<Constraint>::empty());
    assert(claimed(r, height) == 100);
    assert(fits(r, height));
    assert(edge(r, height, 1) == height - 1 && edge(r, height, 2) == height);
    lemma_two_parts(SIDEBAR, 1, main.spec_right() - main.x);
}

/// How the readings of the Control and the Info panel that have no text of their
/// own are put into words.
pub struct Wording<C, I> {
    pub control: C,
    pub info: I,
}

/// The Control panel is on the screen.
pub open spec fn control_shown<C: Fn(Reading) -> String>(
    area: Rect,
    t: TuiView,
    wording: C,
    before: Screen,
    after: Screen,
) -> bool {
    let focused = t.states.focus == Pane::Control;
    exists|columns: Seq<Seq<Rect>>, values: Seq<String>|
        #[trigger] control_panel::worded(t.states, wording, values) && control_panel::laid_out(
            area.spec_inner(),
            control_panel::lines_shown(area.spec_inner()),
            columns,
        ) && #[trigger] shows(
            before,
            after,
            panel_strokes(area, focused, content_of(t.control, t.states, values, focused), columns),
        )
}

/// The Info panel is on the screen.
pub open spec fn info_shown<I: Fn(InfoReading) -> String>(
    area: Rect,
    info: InfoView,
    wording: I,
    before: Screen,
    after: Screen,
) -> bool {
    if area.spec_inner().spec_is_empty() {
        shows(before, after, seq![info_frame(area)])
    } else {
        exists|rows: Seq<Rect>, columns: Seq<Seq<Rect>>, values: Seq<String>| #[trigger]
            info.worded(wording, values) && #[trigger] info_laid_out(
                area.spec_inner(),
                rows,
                columns,
            ) && shows(before, after, info_panel(area, columns, info_view::texts(values)))
    }
}

/// What the status bar says at time `now`.
pub open spec fn status_at(t: TuiView, now: u64) -> Option<Seq<char>> {
    match t.status {
        Some((text, at)) => if now - at < STATUS_TTL {
            Some(text)
        } else {
            None
        },
        None => None,
    }
}

/// The settings once the log has been drawn: it scrolls no further than it can.
pub open spec fn scrolled(s: TuiStates, area: Rect, lines: int) -> TuiStates {
    TuiStates {
        log_scroll: (if area.spec_inner().spec_is_empty() {
            0
        } else {
            reach(lines, area.spec_inner().height as int, s.log_scroll as int)
        }) as usize,
        ..s
    }
}

/// The signal panel's state once its pane has been laid out.
pub open spec fn fitted(v: SignalState, s: TuiStates, rows: u16) -> SignalState {
    SignalState { waterfall_height: rows, ..v }.marked(s, true)
}

/// The screen, step by step: Control, Info, the log, the signal, and the status
/// row.
pub open spec fn screen_drawn<
    C: Fn(Reading) -> String,
    I: Fn(InfoReading) -> String,
    D: Fn(i64, i64, usize, usize) -> String,
    T: Fn(i64, i64, usize, usize) -> String,
    Q: Fn(i64, i64, usize, usize) -> String,
    H: Fn(i32, usize) -> usize,
    E: Fn(i32, usize) -> usize,
    K: Fn(i32) -> Color,
>(
    t: TuiView,
    v: SignalState,
    info: InfoView,
    log: log::Ring,
    wording: Wording<C, I>,
    scales: Scales<D, T, Q, H, E, K>,
    now: u64,
    before: Screen,
    after: Screen,
    l: ScreenLayout,
    s: SignalLayout,
    step: Seq<Screen>,
) -> bool {
    let states = scrolled(t.states, l.log, log@.len() as int);
    &&& lays_out(l.signal, s)
    &&& control_shown(l.control, t, wording.control, before, step[0])
    &&& info_shown(l.info, info, wording.info, step[0], step[1])
    &&& shows(
        step[1],
        step[2],
        log_panel(
            l.log,
            t.states.focus == Pane::Log,
            log@,
            log.spec_start(),
            t.states.log_scroll as int,
        ),
    )
    &&& fitted(v, states, s.water.height).panel_shown_in(
        l.signal,
        states,
        scales,
        step[2],
        step[3],
        s,
    )
    &&& shows(step[3], after, bar_strokes(l.status, t.states.focus, status_at(t, now)))
}

impl Tui {
    /// Draw the whole screen. The time axis is scaled to the rows the waterfall
    /// gets, and the log's scroll counter is held to what the log could scroll.
    pub fn draw<
        C: Fn(Reading) -> String,
        I: Fn(InfoReading) -> String,
        D: Fn(i64, i64, usize, usize) -> String,
        T: Fn(i64, i64, usize, usize) -> String,
        Q: Fn(i64, i64, usize, usize) -> String,
        H: Fn(i32, usize) -> usize,
        E: Fn(i32, usize) -> usize,
        K: Fn(i32) -> Color,
    >(
        &mut self,
        area: Rect,
        buf: &mut Screen,
        signal: &mut SignalView,
        info: &InfoView,
        log: &log::Ring,
        wording: &Wording<C, I>,
        scales: &Scales<D, T, Q, H, E, K>,
        now: u64,
    )
        requires
            old(self)@.control.wf(),
            old(signal)@.wf(),
            forall|v: SignalState| #[trigger] v.can_draw(*scales),
            whole(*old(buf)),
            log.wf(),
            legible(log@),
            old(self)@.status matches Some((text, _)) ==> text.len() < TEXT_MAX,
            words_everything(wording.control),
            words_everything(wording.info),
            area.x + area.width + Y_AXIS_WIDTH <= u16::MAX,
            area.y + area.height <= u16::MAX,
        ensures
            exists|l: ScreenLayout, s: SignalLayout, step: Seq<Screen>|
                {
                    &&& divides(area, l)
                    &&& #[trigger] screen_drawn(
                        old(self)@,
                        old(signal)@,
                        *info,
                        *log,
                        *wording,
                        *scales,
                        now,
                        *old(buf),
                        *final(buf),
                        l,
                        s,
                        step,
                    )
                    &&& final(self)@ == (TuiView {
                        states: scrolled(old(self)@.states, l.log, log@.len() as int),
                        ..old(self)@
                    })
                    &&& final(signal)@ == fitted(
                        old(signal)@,
                        final(self)@.states,
                        s.water.height,
                    )
                },
    {
        let l = divide(area);
        let focus = self.states.focus;
        let ghost start = *buf;
        let ghost before = self@;
        proof {
            lemma_on_screen(area, l);
        }
        self.control_view.render(
            l.control,
            buf,
            &self.states,
            &wording.control,
            focus == Pane::Control,
        );
        let ghost controls = *buf;
        proof {
            lemma_stays_whole(start, controls);
        }
        info.render(l.info, buf, &wording.info);
        let ghost informed = *buf;
        proof {
            lemma_stays_whole(controls, informed);
        }
        let scroll: usize = LogView.render(
            l.log,
            buf,
            log,
            self.states.log_scroll,
            focus == Pane::Log,
        );
        let ghost logged = *buf;
        proof {
            lemma_stays_whole(informed, logged);
        }
        self.states.log_scroll = scroll;
        let s = SignalView::layout(l.signal);
        signal.set_waterfall_height(s.water.height);
        signal.gen_marked_labels(&self.states, true);
        signal.render_in(l.signal, s, buf, &self.states, scales);
        let ghost plotted = *buf;
        StatusBar.render(l.status, buf, &self.states, self.status(now));
        proof {
            let step = seq![controls, informed, logged, plotted];
            assert(screen_drawn(
                before,
                old(signal)@,
                *info,
                *log,
                *wording,
                *scales,
                now,
                start,
                *buf,
                l,
                s,
                step,
            ));
        }
    }
}

} // verus!
