//! The bottom bar: key hints, and the last thing that happened.

use ratatui::buffer::Buffer as Screen;
use vstd::prelude::*;
use vstd::string::StringExecFns;

use crate::tui::colors;
use crate::tui::paint::{
    bounds, draw_line, draw_spans, lemma_fresh, lemma_next, margin, shows, span_views, whole, Rect,
    Span, SpanView, Stroke, Style, BOLD, TEXT_MAX,
};
use crate::tui::tui_states::{Pane, TuiStates};

verus! {

/// The bar. It has no state of its own.
pub struct StatusBar;

/// How many hints a pane has.
pub open spec fn hint_count(pane: Pane) -> nat {
    match pane {
        Pane::Control => 6,
        Pane::Log => 4,
    }
}

/// A key of a pane, and what it does.
pub open spec fn spec_hint(pane: Pane, i: int) -> (Seq<char>, Seq<char>) {
    match pane {
        Pane::Control => if i == 0 {
            ("\u{2191}\u{2193}"@, "field"@)
        } else if i == 1 {
            ("\u{2190}\u{2192}"@, "adjust"@)
        } else if i == 2 {
            ("[ ]"@, "floor"@)
        } else if i == 3 {
            ("m"@, "mute"@)
        } else if i == 4 {
            ("tab"@, "pane"@)
        } else {
            ("q"@, "quit"@)
        },
        Pane::Log => if i == 0 {
            ("\u{2191}\u{2193}"@, "scroll"@)
        } else if i == 1 {
            ("g"@, "tail"@)
        } else if i == 2 {
            ("tab"@, "pane"@)
        } else {
            ("q"@, "quit"@)
        },
    }
}

/// A key of a pane, and what it does.
fn hint(pane: Pane, i: usize) -> (h: (&'static str, &'static str))
    ensures
        (h.0@, h.1@) == spec_hint(pane, i as int),
        h.0@.len() <= 10,
        h.1@.len() <= 10,
{
    proof {
        reveal_strlit("\u{2191}\u{2193}");
        reveal_strlit("field");
        reveal_strlit("\u{2190}\u{2192}");
        reveal_strlit("adjust");
        reveal_strlit("[ ]");
        reveal_strlit("floor");
        reveal_strlit("m");
        reveal_strlit("mute");
        reveal_strlit("tab");
        reveal_strlit("pane");
        reveal_strlit("q");
        reveal_strlit("quit");
        reveal_strlit("scroll");
        reveal_strlit("g");
        reveal_strlit("tail");
    }
    match pane {
        Pane::Control => if i == 0 {
            ("\u{2191}\u{2193}", "field")
        } else if i == 1 {
            ("\u{2190}\u{2192}", "adjust")
        } else if i == 2 {
            ("[ ]", "floor")
        } else if i == 3 {
            ("m", "mute")
        } else if i == 4 {
            ("tab", "pane")
        } else {
            ("q", "quit")
        },
        Pane::Log => if i == 0 {
            ("\u{2191}\u{2193}", "scroll")
        } else if i == 1 {
            ("g", "tail")
        } else if i == 2 {
            ("tab", "pane")
        } else {
            ("q", "quit")
        },
    }
}

/// The hints of a pane in one line: each key in bold, and behind it what it does.
pub open spec fn hint_spans(pane: Pane, n: nat) -> Seq<SpanView>
    decreases n,
{
    if n == 0 {
        seq![(" "@, Style::plain())]
    } else {
        let (key, what) = spec_hint(pane, n - 1);
        hint_spans(pane, (n - 1) as nat).push(
            (key, Style { modifiers: BOLD, ..Style::ink(colors::HINT_KEY) }),
        ).push((" "@ + what + "   "@, Style::ink(colors::HINT_TEXT)))
    }
}

/// What drawing the bar amounts to: a message takes the whole of it.
pub open spec fn bar_strokes(area: Rect, pane: Pane, status: Option<Seq<char>>) -> Seq<Stroke> {
    if area.spec_is_empty() {
        Seq::empty()
    } else {
        match status {
            Some(msg) => seq![
                Stroke::Line {
                    text: " "@ + msg,
                    style: Style {
                        fg: Some(colors::STATUS_FG),
                        bg: Some(colors::STATUS_BG),
                        modifiers: 0,
                    },
                    area,
                },
            ],
            None => seq![Stroke::Spans { spans: hint_spans(pane, hint_count(pane)), area }],
        }
    }
}

impl StatusBar {
    /// Draw the bar: the message while there is one, the hints of the focused
    /// pane otherwise.
    pub fn render(&self, area: Rect, buf: &mut Screen, states: &TuiStates, status: Option<&str>)
        requires
            whole(*old(buf)),
            margin(area, bounds(*old(buf))),
            status matches Some(msg) ==> msg@.len() < TEXT_MAX,
        ensures
            shows(
                *old(buf),
                *final(buf),
                bar_strokes(
                    area,
                    states.focus,
                    match status {
                        Some(msg) => Some(msg@),
                        None => None,
                    },
                ),
            ),
    {
        let ghost start = *buf;
        proof {
            lemma_fresh(start);
            reveal_strlit(" ");
            reveal_strlit("   ");
        }
        if area.is_empty() {
            return;
        }
        if let Some(msg) = status {
            let mut text = String::from_str(" ");
            text.append(msg);
            let style = Style::new().fg(colors::STATUS_FG).bg(colors::STATUS_BG);
            draw_line(buf, text.as_str(), style, area);
            proof {
                let stroke = Stroke::Line { text: " "@ + msg@, style, area };
                lemma_next(start, start, *buf, Seq::empty(), stroke);
                assert(Seq::<Stroke>::empty().push(stroke) =~= bar_strokes(
                    area,
                    states.focus,
                    Some(msg@),
                ));
            }
            return;
        }
        let pane = states.focus;
        let n: usize = match pane {
            Pane::Control => 6,
            Pane::Log => 4,
        };
        let mut spans: Vec<Span> = Vec::new();
        spans.push(Span { text: String::from_str(" "), style: Style::new() });
        assert(span_views(spans@) =~= hint_spans(pane, 0));
        let mut i: usize = 0;
        while i < n
            invariant
                i <= n,
                span_views(spans@) == hint_spans(pane, i as nat),
                " "@.len() == 1,
                "   "@.len() == 3,
                forall|j: int|
                    0 <= j < spans@.len() ==> (#[trigger] spans@[j]).text@.len() <= TEXT_MAX,
            decreases n - i,
        {
            let ghost before = spans@;
            let (key, what) = hint(pane, i);
            let bold = Style { fg: Some(colors::HINT_KEY), bg: None, modifiers: BOLD };
            spans.push(Span { text: String::from_str(key), style: bold });
            let mut text = String::from_str(" ");
            text.append(what);
            text.append("   ");
            spans.push(Span { text, style: Style::new().fg(colors::HINT_TEXT) });
            assert(span_views(spans@) =~= span_views(before).push((key@, bold)).push(
                (" "@ + what@ + "   "@, Style::ink(colors::HINT_TEXT)),
            ));
            i += 1;
        }
        draw_spans(buf, &spans, area);
        proof {
            let stroke = Stroke::Spans { spans: hint_spans(pane, hint_count(pane)), area };
            lemma_next(start, start, *buf, Seq::empty(), stroke);
            assert(Seq::<Stroke>::empty().push(stroke) =~= bar_strokes(area, pane, None));
        }
    }
}

} // verus!
