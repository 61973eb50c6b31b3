//! What the log keeps, and how its lines read.

use std::collections::VecDeque;

use vstd::prelude::*;

use crate::log::{
    file_line, record, recorded, spec_file_line, spec_stamp, stamp, with_entries, Entry, Level, Ring,
};
use crate::text::laws::two_digits_read_back;
use crate::text::{parsed, two_digits};

verus! {

/// A log that is given lines one after the other.
pub open spec fn recorded_all(log: Seq<Entry>, lines: Seq<Entry>) -> Seq<Entry>
    decreases lines.len(),
{
    if lines.len() == 0 {
        log
    } else {
        recorded(recorded_all(log, lines.drop_last()), lines.last())
    }
}

/// However many lines are recorded, the log holds the newest 512 of them, or all where
/// there are fewer, oldest first.
pub proof fn log_keeps_the_newest(lines: Seq<Entry>)
    ensures
        ({
            let log = recorded_all(Seq::empty(), lines);
            &&& lines.len() <= 512 ==> log == lines
            &&& lines.len() > 512 ==> log == lines.skip(lines.len() - 512)
        }),
    decreases lines.len(),
{
    let log = recorded_all(Seq::empty(), lines);
    if lines.len() == 0 {
        assert(log =~= lines);
    } else {
        let n = lines.len() as int;
        log_keeps_the_newest(lines.drop_last());
        if n <= 512 {
            assert(log =~= lines);
        } else {
            assert(log =~= lines.skip(n - 512));
        }
    }
}

/// A line of the file is its level in brackets, a blank and the text.
pub proof fn file_line_is_tagged(level: Level, text: Seq<char>)
    ensures
        ({
            let line = spec_file_line(level, text);
            &&& line.len() == 7 + text.len()
            &&& line.take(7) == match level {
                Level::Info => seq!['[', 'I', 'N', 'F', 'O', ']', ' '],
                Level::Warn => seq!['[', 'W', 'A', 'R', 'N', ']', ' '],
                Level::Error => seq!['[', 'E', 'R', 'R', ' ', ']', ' '],
            }
            &&& line.skip(7) == text
        }),
{
    reveal_strlit("[");
    reveal_strlit("] ");
    reveal_strlit("INFO");
    reveal_strlit("WARN");
    reveal_strlit("ERR ");
    let line = spec_file_line(level, text);
    assert(line.skip(7) =~= text);
    match level {
        Level::Info => {
            assert(line.take(7) =~= seq!['[', 'I', 'N', 'F', 'O', ']', ' ']);
        },
        Level::Warn => {
            assert(line.take(7) =~= seq!['[', 'W', 'A', 'R', 'N', ']', ' ']);
        },
        Level::Error => {
            assert(line.take(7) =~= seq!['[', 'E', 'R', 'R', ' ', ']', ' ']);
        },
    }
}

/// A time stamp reads back as the whole seconds since the log was opened: minutes, a
/// colon, two digits of seconds and a blank. A line from before is at zero.
pub proof fn stamp_reads_back(at: u64, start: u64)
    ensures
        ({
            let s = spec_stamp(at, start);
            let n = s.len() as int;
            let minutes = parsed(s.take(n - 4));
            let seconds = parsed(s.subrange(n - 3, n - 1));
            let elapsed = 60 * minutes + seconds;
            &&& n >= 6
            &&& s[n - 4] == ':'
            &&& s[n - 1] == ' '
            &&& seconds < 60
            &&& at >= start ==> 1000 * elapsed <= at - start < 1000 * elapsed + 1000
            &&& at < start ==> elapsed == 0
        }),
{
    let secs: nat = if at < start {
        0
    } else {
        ((at - start) / 1000) as nat
    };
    let s = spec_stamp(at, start);
    let n = s.len() as int;
    two_digits_read_back(secs / 60);
    two_digits_read_back(secs % 60);
    reveal_strlit(":");
    reveal_strlit(" ");
    assert(s.take(n - 4) =~= two_digits(secs / 60));
    assert(s.subrange(n - 3, n - 1) =~= two_digits(secs % 60));
}

/// A new log is empty and opened now. Recording a line makes it the newest, with its time,
/// its level and its text; a full log of 512 lines loses its oldest. Where it is read,
/// the lines are in that order.
pub proof fn a_line_is_recorded_as_the_newest(
    now: u64,
    fresh: Ring,
    ring: &mut Ring,
    level: Level,
    text: String,
    at: u64,
    shared: &Ring,
    n: usize,
    i: usize,
    e: &Entry,
    opened: u64,
)
    requires
        call_ensures(Ring::new, (now,), fresh),
        old(ring).wf(),
        call_ensures(record, (ring, level, text, at), ()),
        call_ensures(Ring::len, (shared,), n),
        i < n,
        call_ensures(Ring::entry, (shared, i), e),
        call_ensures(Ring::start, (shared,), opened),
    ensures
        fresh@.len() == 0,
        fresh.spec_start() == now,
        final(ring)@.last().at == at,
        final(ring)@.last().level == level,
        final(ring)@.last().text == text,
        old(ring)@.len() < 512 ==> final(ring)@.drop_last() == old(ring)@,
        old(ring)@.len() == 512 ==> final(ring)@.drop_last() == old(ring)@.skip(1),
        final(ring).spec_start() == old(ring).spec_start(),
        n == shared@.len(),
        *e == shared@[i as int],
        opened == shared.spec_start(),
{
    let before = old(ring)@;
    if before.len() < 512 {
        assert(final(ring)@.drop_last() =~= before);
    } else {
        assert(final(ring)@.drop_last() =~= before.skip(1));
    }
}

/// A reader of the log gets its lines and its opening time, and its answer is handed on.
pub proof fn readers_get_the_log<R, F: FnOnce(&VecDeque<Entry>, u64) -> R>(
    ring: &Ring,
    f: F,
    r: R,
)
    requires
        call_ensures(with_entries::<R, F>, (ring, f), r),
    ensures
        exists|entries: &VecDeque<Entry>|
            entries@ == ring@ && #[trigger] call_ensures(f, (entries, ring.spec_start()), r),
{
}

/// Lines, stamps and tags are the texts their models say.
pub proof fn texts_are_as_they_say(
    level: Level,
    tag: &'static str,
    text: &str,
    line: String,
    at: u64,
    start: u64,
    s: String,
)
    requires
        call_ensures(Level::tag, (level,), tag),
        call_ensures(file_line, (level, text), line),
        call_ensures(stamp, (at, start), s),
    ensures
        tag@ == level.spec_tag(),
        line@ == spec_file_line(level, text@),
        s@ == spec_stamp(at, start),
{
}

} // verus!
