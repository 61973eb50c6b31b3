//! The Log panel: everything that happened, newest at the bottom.

use ratatui::buffer::Buffer as Screen;
use vstd::prelude::*;

use crate::log::{self, lemma_stamp_is_brief, spec_stamp, Entry, Level};
use crate::tui::colors;
use crate::tui::paint::{
    bounds, draw_block, draw_spans, lemma_fresh, lemma_next, margin, shows, span_views, whole, Rect,
    Span, Stroke, Style, TEXT_MAX,
};

verus! {

/// The panel. It has no state of its own.
pub struct LogView;

/// How far back a log of `len` lines can be scrolled in `height` rows: not past
/// its oldest line.
pub open spec fn reach(len: int, height: int, scroll: int) -> int {
    let most = if len > height {
        len - height
    } else {
        0
    };
    if scroll < most {
        scroll
    } else {
        most
    }
}

/// The first line shown.
pub open spec fn first_line(len: int, height: int, scroll: int) -> int {
    let end = len - reach(len, height, scroll);
    if end > height {
        end - height
    } else {
        0
    }
}

/// How many lines are shown.
pub open spec fn lines_shown(len: int, height: int, scroll: int) -> int {
    len - reach(len, height, scroll) - first_line(len, height, scroll)
}

/// Whatever was scrolled, the panel is as full as the log allows; unscrolled it
/// shows the newest line, and scrolled all the way the oldest.
pub proof fn log_window(len: int, height: int, scroll: int)
    requires
        len >= 0,
        height >= 0,
        scroll >= 0,
    ensures
        lines_shown(len, height, scroll) == if len < height {
            len
        } else {
            height
        },
        0 <= first_line(len, height, scroll),
        first_line(len, height, scroll) + lines_shown(len, height, scroll) <= len,
        first_line(len, height, 0) + lines_shown(len, height, 0) == len,
        scroll >= len ==> first_line(len, height, scroll) == 0,
        reach(len, height, reach(len, height, scroll)) == reach(len, height, scroll),
{
}

/// How the text of a line is drawn. The palette has no red, so an error escalates
/// by inversion: a warning is orange text, an error a block of orange.
pub open spec fn spec_level_style(level: Level) -> Style {
    match level {
        Level::Info => Style::ink(colors::LOG_INFO),
        Level::Warn => Style::ink(colors::LOG_WARN),
        Level::Error => Style {
            fg: Some(colors::LOG_ERROR_FG),
            bg: Some(colors::LOG_ERROR_BG),
            modifiers: 0,
        },
    }
}

/// How the text of a line is drawn.
pub fn level_style(level: Level) -> (s: Style)
    ensures
        s == spec_level_style(level),
{
    match level {
        Level::Info => Style::new().fg(colors::LOG_INFO),
        Level::Warn => Style::new().fg(colors::LOG_WARN),
        Level::Error => Style::new().fg(colors::LOG_ERROR_FG).bg(colors::LOG_ERROR_BG),
    }
}

/// What drawing a line amounts to: its time and its text.
pub open spec fn log_stroke(e: Entry, opened: u64, area: Rect) -> Stroke {
    Stroke::Spans {
        spans: seq![
            (spec_stamp(e.at, opened), Style::ink(colors::LOG_TIME)),
            (e.text@, spec_level_style(e.level)),
        ],
        area,
    }
}

/// No line is too long to be drawn.
pub open spec fn legible(lines: Seq<Entry>) -> bool {
    forall|i: int| 0 <= i < lines.len() ==> (#[trigger] lines[i]).text@.len() <= TEXT_MAX
}

/// What drawing the panel amounts to.
pub open spec fn log_panel(
    area: Rect,
    focused: bool,
    lines: Seq<Entry>,
    opened: u64,
    scroll: int,
) -> Seq<Stroke> {
    let inner = area.spec_inner();
    let first = first_line(lines.len() as int, inner.height as int, scroll);
    let frame = Stroke::Block { title: "Log"@, chrome: colors::card(focused), area };
    if inner.spec_is_empty() {
        seq![frame]
    } else {
        seq![frame] + Seq::new(
            lines_shown(lines.len() as int, inner.height as int, scroll) as nat,
            |i: int|
                log_stroke(
                    lines[first + i],
                    opened,
                    Rect::spec_new(inner.x, (inner.y + i) as u16, inner.width, 1),
                ),
        )
    }
}

impl LogView {
    /// Draw the panel, `scroll` lines back from the newest; 0 follows the tail.
    ///
    /// Returns how far the panel was able to scroll, so that a held key cannot
    /// wind the counter off past the end of the history.
    pub fn render(
        &self,
        area: Rect,
        buf: &mut Screen,
        log: &log::Ring,
        scroll: usize,
        focused: bool,
    ) -> (scrolled: usize)
        requires
            whole(*old(buf)),
            log.wf(),
            legible(log@),
            area.y + area.height <= u16::MAX,
            margin(area, bounds(*old(buf))),
        ensures
            shows(
                *old(buf),
                *final(buf),
                log_panel(area, focused, log@, log.spec_start(), scroll as int),
            ),
            scrolled == (if area.spec_inner().spec_is_empty() {
                0
            } else {
                reach(log@.len() as int, area.spec_inner().height as int, scroll as int)
            }),
    {
        let ghost start = *buf;
        let inner = area.inner();
        proof {
            reveal_strlit("Log");
            lemma_fresh(start);
        }
        draw_block(buf, "Log", colors::pane_chrome(focused), area);
        let ghost frame = Stroke::Block { title: "Log"@, chrome: colors::card(focused), area };
        proof {
            lemma_next(start, start, *buf, Seq::empty(), frame);
            assert(Seq::<Stroke>::empty().push(frame) =~= seq![frame]);
        }
        if inner.is_empty() {
            return 0;
        }
        let height: usize = inner.height as usize;
        let len: usize = log.len();
        let most: usize = len.saturating_sub(height);
        let scroll: usize = if scroll < most {
            scroll
        } else {
            most
        };
        let end: usize = len - scroll;
        let first: usize = end.saturating_sub(height);
        let opened: u64 = log.start();
        let ghost want = log_panel(area, focused, log@, opened, scroll as int);
        let mut i: usize = 0;
        assert(want.take(1) =~= seq![frame]);
        while i < end - first
            invariant
                i <= end - first,
                first <= end <= len,
                end - first <= height,
                len == log@.len(),
                height == inner.height,
                inner == area.spec_inner(),
                inner.y + inner.height <= u16::MAX,
                legible(log@),
                margin(inner, bounds(*buf)),
                opened == log.spec_start(),
                whole(start),
                whole(*buf),
                first == first_line(len as int, height as int, scroll as int),
                end - first == lines_shown(len as int, height as int, scroll as int),
                !inner.spec_is_empty(),
                want == log_panel(area, focused, log@, opened, scroll as int),
                shows(start, *buf, want.take(i + 1)),
            decreases end - first - i,
        {
            let e = log.entry(first + i);
            let mut spans: Vec<Span> = Vec::new();
            spans.push(
                Span { text: log::stamp(e.at, opened), style: Style::new().fg(colors::LOG_TIME) },
            );
            spans.push(Span { text: e.text.clone(), style: level_style(e.level) });
            proof {
                lemma_stamp_is_brief(e.at, opened);
                assert(legible(log@) && log@[first + i] == *e);
            }
            let row = Rect::new(inner.x, inner.y + i as u16, inner.width, 1);
            let ghost before = *buf;
            draw_spans(buf, &spans, row);
            proof {
                let stroke = log_stroke(*e, opened, row);
                assert(span_views(spans@) =~= stroke->Spans_spans);
                lemma_next(start, before, *buf, want.take(i + 1), stroke);
                assert(want[i + 1] == stroke);
                assert(want.take(i + 1).push(stroke) =~= want.take(i + 2));
            }
            i += 1;
        }
        assert(want.take(i + 1) =~= want);
        scroll
    }
}

} // verus!
