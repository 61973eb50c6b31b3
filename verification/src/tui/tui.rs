//! The UI as a whole: which key does what, and what stands on the status bar.

use vstd::prelude::*;
use vstd::string::StringExecFns;

use crate::control_signal::CtrlSignal;
use crate::text::{push_signed, signed_decimal};
use crate::tui::control_view::{saturated, ControlView, ControlViewState, Field, Reading};
use crate::tui::paint::words_everything;
use crate::tui::tui_states::{Pane, TuiStates};
use crate::utils::clamp;

verus! {

/// A frame lasts this many milliseconds: 30 frames a second is good enough.
pub const FRAME: u64 = 33;

/// Width of the left column, in columns.
pub const SIDEBAR: u16 = 30;

/// How many milliseconds a status message stays on the bottom bar before the
/// key hints come back.
pub const STATUS_TTL: u64 = 3_000;

/// A key of the keyboard, as far as the UI knows it.
#[derive(Clone, Copy, Debug, PartialEq, Eq, Structural)]
pub enum KeyCode {
    Char(char),
    Esc,
    Tab,
    BackTab,
    Up,
    Down,
    Left,
    Right,
    Other,
}

/// A key going down or up.
#[derive(Clone, Copy, Debug, PartialEq, Eq, Structural)]
pub struct KeyEvent {
    pub code: KeyCode,
    /// Down, rather than up or repeating.
    pub press: bool,
    /// The control key is held.
    pub ctrl: bool,
}

/// What the status bar is to say.
#[derive(Clone, Copy, Debug, PartialEq, Eq, Structural)]
pub enum Status {
    /// A row of the Control panel and its new value.
    Field(Field, Reading),
    /// The new bottom of the colour range.
    Floor(i32),
    Muted(bool),
}

impl Status {
    /// What the status bar says, given the text of the row's value.
    pub open spec fn spec_text(self, value: Seq<char>) -> Seq<char> {
        match self {
            Status::Field(f, _) => f.spec_label() + "  "@ + value,
            Status::Floor(db) => "Floor  "@ + signed_decimal(db as int) + " dB"@,
            Status::Muted(muted) => if muted {
                "Muted"@
            } else {
                "Unmuted"@
            },
        }
    }

    /// The text is what the status bar says: a row's new value is its reading in
    /// words.
    pub open spec fn says<F: Fn(Reading) -> String>(self, other: F, s: Seq<char>) -> bool {
        match self {
            Status::Field(_, r) => exists|value: String| #[trigger]
                r.reads(other, value) && s == self.spec_text(value@),
            _ => s == self.spec_text(Seq::empty()),
        }
    }

    /// What the status bar says. A reading without a text of its own is put into
    /// words by the function.
    pub fn text<F: Fn(Reading) -> String>(self, other: &F) -> (s: String)
        requires
            words_everything(*other),
        ensures
            self.says(*other, s@),
    {
        match self {
            Status::Field(f, r) => {
                let value = r.words(other);
                let mut s = String::from_str(f.label());
                s.append("  ");
                s.append(value.as_str());
                assert(r.reads(*other, value) && s@ == self.spec_text(value@));
                s
            },
            Status::Floor(db) => {
                let mut s = String::from_str("Floor  ");
                push_signed(&mut s, db as i64);
                s.append(" dB");
                s
            },
            Status::Muted(muted) => {
                if muted {
                    String::from_str("Muted")
                } else {
                    String::from_str("Unmuted")
                }
            },
        }
    }
}

/// What follows from a key.
#[derive(Clone, Copy, Debug, PartialEq, Eq, Structural)]
pub struct Outcome {
    /// The app should exit.
    pub quit: bool,
    /// What the controller has to hear.
    pub signal: Option<CtrlSignal>,
    /// What the status bar has to say.
    pub status: Option<Status>,
}

/// Nothing follows.
pub open spec fn nothing() -> Outcome {
    Outcome { quit: false, signal: None, status: None }
}

/// The state of a [`Tui`].
pub struct TuiView {
    pub states: TuiStates,
    pub control: ControlViewState,
    /// The last message and when it was posted.
    pub status: Option<(Seq<char>, u64)>,
}

/// The UI: what it shows and edits, the Control panel, and the last message.
pub struct Tui {
    pub states: TuiStates,
    pub control_view: ControlView,
    pub message: Option<(String, u64)>,
}

impl View for Tui {
    type V = TuiView;

    open spec fn view(&self) -> TuiView {
        TuiView {
            states: self.states,
            control: self.control_view@,
            status: match self.message {
                Some(m) => Some((m.0@, m.1)),
                None => None,
            },
        }
    }
}

impl TuiView {
    /// The cursor is on a row.
    pub open spec fn wf(self) -> bool {
        self.control.wf()
    }

    /// Where the key would move the frequency correction, it has room to move.
    pub open spec fn has_room(self, k: KeyEvent) -> bool {
        k.press && self.control.field() is Ppm ==> {
            &&& k.code is Left ==> i32::MIN < self.states.ppm
            &&& k.code is Right ==> self.states.ppm < i32::MAX
        }
    }

    /// Scroll by one: the cursor in the Control panel, back or forth through the
    /// history in the log.
    pub open spec fn scroll(self, down: bool) -> Self {
        match self.states.focus {
            Pane::Control => TuiView {
                control: self.control.select(if down {
                    1
                } else {
                    -1
                }),
                ..self
            },
            Pane::Log => TuiView {
                states: TuiStates {
                    log_scroll: if down {
                        if self.states.log_scroll > 0 {
                            (self.states.log_scroll - 1) as usize
                        } else {
                            0
                        }
                    } else {
                        if self.states.log_scroll < usize::MAX {
                            (self.states.log_scroll + 1) as usize
                        } else {
                            usize::MAX
                        }
                    },
                    ..self.states
                },
                ..self
            },
        }
    }

    /// Move the bottom of the colour range.
    pub open spec fn nudge_floor(self, db: int) -> (Self, Outcome) {
        let floor = saturated(self.states.floor_db + db) as i32;
        (
            TuiView { states: TuiStates { floor_db: floor, ..self.states }, ..self },
            Outcome { quit: false, signal: None, status: Some(Status::Floor(floor)) },
        )
    }

    /// Adjust the row under the cursor.
    pub open spec fn adjust(self, dir: int) -> (Self, Outcome) {
        let f = self.control.field();
        let (states, signal) = f.spec_adjust(self.states, self.control.gain_table, dir);
        (
            TuiView { states, ..self },
            Outcome {
                quit: false,
                signal,
                status: Some(Status::Field(f, f.spec_value(states))),
            },
        )
    }

    /// What a key does.
    pub open spec fn on_key(self, k: KeyEvent) -> (Self, Outcome) {
        let quit = Outcome { quit: true, signal: Some(CtrlSignal::Quit), status: None };
        if !k.press {
            (self, nothing())
        } else {
            match k.code {
                KeyCode::Char(c) => if c == 'q' || (c == 'c' && k.ctrl) {
                    (self, quit)
                } else if c == ']' {
                    self.nudge_floor(2)
                } else if c == '[' {
                    self.nudge_floor(-2)
                } else if c == 'm' {
                    let muted = !self.states.muted;
                    (
                        TuiView { states: TuiStates { muted, ..self.states }, ..self },
                        Outcome { quit: false, signal: None, status: Some(Status::Muted(muted)) },
                    )
                } else if c == 'g' {
                    (
                        TuiView { states: TuiStates { log_scroll: 0, ..self.states }, ..self },
                        nothing(),
                    )
                } else {
                    (self, nothing())
                },
                KeyCode::Esc => (self, quit),
                KeyCode::Tab | KeyCode::BackTab => (
                    TuiView {
                        states: TuiStates {
                            focus: self.states.focus.spec_next(),
                            log_scroll: 0,
                            ..self.states
                        },
                        ..self
                    },
                    nothing(),
                ),
                KeyCode::Up => (self.scroll(false), nothing()),
                KeyCode::Down => (self.scroll(true), nothing()),
                KeyCode::Left => self.adjust(-1),
                KeyCode::Right => self.adjust(1),
                KeyCode::Other => (self, nothing()),
            }
        }
    }
}

impl Tui {
    /// The UI before its first frame.
    pub fn new(states: TuiStates, gain_table: Vec<i32>) -> (t: Self)
        ensures
            t@.states == states,
            t@.control.wf(),
            t@.control.selected == 0,
            t@.control.gain_table == gain_table@,
            t@.status is None,
    {
        Tui { states, control_view: ControlView::new(gain_table), message: None }
    }

    /// What the status bar says at time `now`: the last message, until it is too
    /// old.
    pub fn status(&self, now: u64) -> (s: Option<&str>)
        ensures
            match self@.status {
                Some((text, at)) => if now - at < STATUS_TTL {
                    s is Some && s->0@ == text
                } else {
                    s is None
                },
                None => s is None,
            },
    {
        match &self.message {
            Some((text, at)) => {
                if now.saturating_sub(*at) < STATUS_TTL {
                    Some(text.as_str())
                } else {
                    None
                }
            },
            None => None,
        }
    }

    /// Post a message to the bottom bar. The log keeps the history; the bar only
    /// ever shows the latest.
    pub fn set_status(&mut self, text: String, now: u64)
        ensures
            final(self)@ == (TuiView { status: Some((text@, now)), ..old(self)@ }),
    {
        self.message = Some((text, now));
    }

    /// Act on a key.
    ///
    /// Some terminals report a key going up as well as down; only the press
    /// counts, or every arrow would move two steps.
    pub fn on_key(&mut self, k: KeyEvent) -> (o: Outcome)
        requires
            old(self)@.wf(),
            old(self)@.has_room(k),
        ensures
            (final(self)@, o) == old(self)@.on_key(k),
            final(self)@.wf(),
    {
        let none = Outcome { quit: false, signal: None, status: None };
        if !k.press {
            return none;
        }
        match k.code {
            KeyCode::Char(c) => {
                if c == 'q' || (c == 'c' && k.ctrl) {
                    return self.quit();
                }
                if c == ']' {
                    return self.nudge_floor(2);
                }
                if c == '[' {
                    return self.nudge_floor(-2);
                }
                if c == 'm' {
                    let muted = !self.states.muted;
                    self.states.muted = muted;
                    return Outcome {
                        quit: false,
                        signal: None,
                        status: Some(Status::Muted(muted)),
                    };
                }
                if c == 'g' {
                    self.states.log_scroll = 0;
                }
                none
            },
            KeyCode::Esc => self.quit(),
            KeyCode::Tab | KeyCode::BackTab => {
                self.states.focus = self.states.focus.next();
                self.states.log_scroll = 0;
                none
            },
            KeyCode::Up => {
                self.scroll(-1);
                none
            },
            KeyCode::Down => {
                self.scroll(1);
                none
            },
            KeyCode::Left => self.adjust(-1),
            KeyCode::Right => self.adjust(1),
            KeyCode::Other => none,
        }
    }

    /// Leave, once the controller has been told.
    fn quit(&mut self) -> (o: Outcome)
        ensures
            *final(self) == *old(self),
            o == (Outcome { quit: true, signal: Some(CtrlSignal::Quit), status: None }),
    {
        Outcome { quit: true, signal: Some(CtrlSignal::Quit), status: None }
    }

    /// Adjust the row under the cursor.
    fn adjust(&mut self, dir: i32) -> (o: Outcome)
        requires
            old(self)@.wf(),
            old(self)@.control.field() is Ppm ==> i32::MIN <= old(self).states.ppm + dir
                <= i32::MAX,
        ensures
            (final(self)@, o) == old(self)@.adjust(dir as int),
    {
        let signal = self.control_view.adjust(&mut self.states, dir);
        let f = self.control_view.field();
        Outcome {
            quit: false,
            signal,
            status: Some(Status::Field(f, f.value(&self.states))),
        }
    }

    /// Scroll the focused pane by one. Up scrolls back through the history,
    /// which is the direction the text moves.
    fn scroll(&mut self, dir: i32)
        requires
            old(self)@.wf(),
            dir == 1 || dir == -1,
        ensures
            final(self)@ == old(self)@.scroll(dir == 1),
            final(self)@.control.wf(),
    {
        match self.states.focus {
            Pane::Control => self.control_view.select(dir),
            Pane::Log => {
                self.states.log_scroll = if dir > 0 {
                    self.states.log_scroll.saturating_sub(1)
                } else {
                    self.states.log_scroll.saturating_add(1)
                };
            },
        }
    }

    /// Move the bottom of the colour range.
    fn nudge_floor(&mut self, db: i32) -> (o: Outcome)
        ensures
            (final(self)@, o) == old(self)@.nudge_floor(db as int),
    {
        let floor: i32 = clamp(
            self.states.floor_db as i64 + db as i64,
            i32::MIN as i64,
            i32::MAX as i64,
        ) as i32;
        self.states.floor_db = floor;
        Outcome { quit: false, signal: None, status: Some(Status::Floor(floor)) }
    }
}

/// A key going up does nothing.
pub proof fn releases_are_ignored(t: TuiView, k: KeyEvent)
    requires
        !k.press,
    ensures
        t.on_key(k) == (t, nothing()),
{
}

/// The UI exits on `q`, on escape and on control-C, and on nothing else; and the
/// controller is told to quit exactly when the UI exits.
pub proof fn quitting_tells_the_controller(t: TuiView, k: KeyEvent)
    ensures
        t.on_key(k).1.quit <==> k.press && (k.code == KeyCode::Char('q') || k.code
            == KeyCode::Esc || (k.code == KeyCode::Char('c') && k.ctrl)),
        t.on_key(k).1.quit <==> t.on_key(k).1.signal == Some(CtrlSignal::Quit),
{
}

/// Coming back to the log shows its tail.
pub proof fn switching_panes_follows_the_tail(t: TuiView, k: KeyEvent)
    requires
        k.press,
        k.code == KeyCode::Tab || k.code == KeyCode::BackTab,
    ensures
        t.on_key(k).0.states.log_scroll == 0,
        t.on_key(k).0.states.focus != t.states.focus,
{
}

} // verus!
