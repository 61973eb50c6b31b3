//! The tail of the log, for use while the TUI owns the terminal.
//!
//! The panel keeps the newest entries; a file is the archive. Nothing on the
//! USB, DSP or audio path may log: only the UI and controller threads do.
//! Times are milliseconds on a clock that never goes back.

pub mod laws;

use std::collections::VecDeque;

use vstd::prelude::*;
use vstd::string::StringExecFns;

use crate::text::{lemma_brief, push_two_digits, two_digits};

verus! {

/// How many entries the panel keeps. The oldest is dropped on overflow.
pub const CAPACITY: usize = 512;

#[derive(Clone, Copy, Debug, PartialEq, Eq, Structural)]
pub enum Level {
    Info,
    Warn,
    Error,
}

impl Level {
    pub open spec fn spec_tag(self) -> Seq<char> {
        match self {
            Level::Info => "INFO"@,
            Level::Warn => "WARN"@,
            Level::Error => "ERR "@,
        }
    }

    /// Prefix written to the file. The panel colours instead of prefixing.
    pub fn tag(self) -> (s: &'static str)
        ensures
            s@ == self.spec_tag(),
    {
        match self {
            Level::Info => "INFO",
            Level::Warn => "WARN",
            Level::Error => "ERR ",
        }
    }
}

/// One line of the log.
pub struct Entry {
    pub at: u64,
    pub level: Level,
    pub text: String,
}

/// The newest lines of the log, oldest first.
pub struct Ring {
    entries: VecDeque<Entry>,
    start: u64,
}

impl View for Ring {
    type V = Seq<Entry>;

    closed spec fn view(&self) -> Seq<Entry> {
        self.entries@
    }
}

/// A log with one more line: the oldest goes where there is no room.
pub open spec fn recorded(log: Seq<Entry>, e: Entry) -> Seq<Entry> {
    if log.len() == CAPACITY {
        log.skip(1).push(e)
    } else {
        log.push(e)
    }
}

impl Ring {
    /// There is never more than the panel keeps.
    pub open spec fn wf(&self) -> bool {
        self@.len() <= CAPACITY
    }

    /// When the log was opened.
    pub closed spec fn spec_start(&self) -> u64 {
        self.start
    }

    /// An empty log, opened now.
    pub fn new(now: u64) -> (r: Self)
        ensures
            r.wf(),
            r@ == Seq::<Entry>::empty(),
            r.spec_start() == now,
    {
        Ring { entries: VecDeque::with_capacity(CAPACITY), start: now }
    }

    /// How many lines there are.
    pub fn len(&self) -> (n: usize)
        ensures
            n == self@.len(),
    {
        self.entries.len()
    }

    /// Line `i`, the oldest being line 0.
    pub fn entry(&self, i: usize) -> (e: &Entry)
        requires
            i < self@.len(),
        ensures
            *e == self@[i as int],
    {
        &self.entries[i]
    }

    /// When the log was opened.
    pub fn start(&self) -> (t: u64)
        ensures
            t == self.spec_start(),
    {
        self.start
    }
}

/// Append a line.
pub fn record(ring: &mut Ring, level: Level, text: String, now: u64)
    requires
        old(ring).wf(),
    ensures
        final(ring).wf(),
        final(ring)@ == recorded(old(ring)@, (Entry { at: now, level, text })),
        final(ring).spec_start() == old(ring).spec_start(),
{
    if ring.entries.len() == CAPACITY {
        ring.entries.pop_front();
        assert(ring@ =~= old(ring)@.skip(1));
    }
    ring.entries.push_back(Entry { at: now, level, text });
}

/// Read the tail: the lines, oldest first, and when the log was opened.
///
/// Borrowing rather than cloning keeps a redraw from allocating per line.
pub fn with_entries<R, F: FnOnce(&VecDeque<Entry>, u64) -> R>(ring: &Ring, f: F) -> (r: R)
    requires
        forall|entries: &VecDeque<Entry>|
            entries@ == ring@ ==> #[trigger] call_requires(f, (entries, ring.spec_start())),
    ensures
        exists|entries: &VecDeque<Entry>|
            entries@ == ring@ && #[trigger] call_ensures(f, (entries, ring.spec_start()), r),
{
    assert(ring.spec_start() == ring.start && ring@ == ring.entries@);
    let entries = &ring.entries;
    assert(call_requires(f, (entries, ring.spec_start())));
    let r = f(entries, ring.start);
    assert(call_ensures(f, (entries, ring.spec_start()), r));
    r
}

/// A log that was followed line by line holds the newest lines, in order.
pub proof fn log_is_a_tail(log: Seq<Entry>, e: Entry)
    requires
        log.len() <= CAPACITY,
    ensures
        recorded(log, e).last() == e,
        recorded(log, e).len() == if log.len() < CAPACITY {
            log.len() + 1
        } else {
            log.len()
        },
        forall|i: int|
            0 < i < recorded(log, e).len() ==> recorded(log, e)[recorded(log, e).len() - 1 - i]
                == #[trigger] log[log.len() - i],
{
}

/// The line a file gets.
pub open spec fn spec_file_line(level: Level, text: Seq<char>) -> Seq<char> {
    "["@ + level.spec_tag() + "] "@ + text
}

/// The line a file gets.
pub fn file_line(level: Level, text: &str) -> (line: String)
    ensures
        line@ == spec_file_line(level, text@),
{
    let mut line = String::from_str("[");
    line.append(level.tag());
    line.append("] ");
    line.append(text);
    line
}

/// A time stamp in minutes and seconds since the log was opened.
pub open spec fn spec_stamp(at: u64, start: u64) -> Seq<char> {
    let secs: nat = if at < start {
        0
    } else {
        ((at - start) / 1000) as nat
    };
    two_digits(secs / 60) + ":"@ + two_digits(secs % 60) + " "@
}

/// A time stamp is short.
pub proof fn lemma_stamp_is_brief(at: u64, start: u64)
    ensures
        spec_stamp(at, start).len() <= 100,
{
    let secs: int = if at < start {
        0
    } else {
        (at - start) / 1000
    };
    lemma_brief(secs / 60);
    lemma_brief(secs % 60);
    reveal_strlit(":");
    reveal_strlit(" ");
}

/// A time stamp in minutes and seconds since the log was opened.
pub fn stamp(at: u64, start: u64) -> (s: String)
    ensures
        s@ == spec_stamp(at, start),
{
    let secs: u64 = at.saturating_sub(start) / 1000;
    let mut s = String::from_str("");
    push_two_digits(&mut s, secs / 60);
    s.append(":");
    push_two_digits(&mut s, secs % 60);
    s.append(" ");
    proof {
        reveal_strlit("");
        assert(s@ =~= spec_stamp(at, start));
    }
    s
}

} // verus!
