//! The ring between a producer and a consumer that each run at their own pace.
//!
//! A write and a read are not one step each. The producer passes its gate, stores
//! element after element of the open slot, and publishes it; the consumer claims,
//! copies element after element, and settles. A run is any interleaving of such
//! steps, and of other consumers' moves.

use vstd::prelude::*;

use crate::spmc::laws::registered;
use crate::spmc::model::{ProducerView, Registration, RingView};

verus! {

/// How far a read has come.
pub enum Reading<T> {
    /// No read is under way.
    Idle,
    /// Block `seq` is claimed and so much of it is copied.
    Copying { seq: nat, copied: Seq<T> },
}

/// A moment of a run.
pub struct Moment<T> {
    pub producer: ProducerView<T>,
    /// The producer has passed its gate, and the open slot is its to write.
    pub open: bool,
    pub reading: Reading<T>,
    /// What the reads that came back `Ok` delivered: sequence number and copy.
    pub got: Seq<(nat, Seq<T>)>,
}

impl<T> Moment<T> {
    /// The producer passes its gate.
    pub open spec fn opens(self, next: Self) -> bool {
        &&& !self.open
        &&& !self.producer.refuses()
        &&& next == (Moment { producer: self.producer.reap(), open: true, ..self })
    }

    /// The same with another state of the ring.
    pub open spec fn with_ring(self, ring: RingView<T>) -> Self {
        Moment { producer: ProducerView { ring, ..self.producer }, ..self }
    }

    /// The producer stores element `i` of the open slot.
    pub open spec fn puts(self, next: Self, i: int, x: T, m: nat) -> bool {
        &&& self.open
        &&& 0 <= i < m
        &&& next == self.with_ring(self.producer.ring.put(i, x))
    }

    /// The producer publishes the open slot.
    pub open spec fn publishes(self, next: Self) -> bool {
        &&& self.open
        &&& next == (Moment { open: false, ..self.with_ring(self.producer.ring.publish()) })
    }

    /// The consumer claims a block.
    pub open spec fn claims(self, next: Self, c: int) -> bool {
        &&& self.reading is Idle
        &&& self.producer.ring.claim(c) matches Some(seq) && next == (Moment {
            reading: Reading::Copying { seq, copied: Seq::empty() },
            ..self.with_ring(self.producer.ring.claimed(c))
        })
    }

    /// The consumer copies one element more.
    pub open spec fn copies(self, next: Self, m: nat) -> bool {
        self.reading matches Reading::Copying { seq, copied } && copied.len() < m && next == (
        Moment {
            reading: Reading::Copying {
                seq,
                copied: copied.push(self.producer.ring.block(seq)[copied.len() as int]),
            },
            ..self
        })
    }

    /// The consumer has copied the whole block and checks again: either the copy
    /// is good and its cursor moves past it, or it is thrown away.
    pub open spec fn settles(self, next: Self, c: int, n: nat, m: nat) -> bool {
        self.reading matches Reading::Copying { seq, copied } && copied.len() == m && next
            == if self.producer.ring.head - seq < n {
            Moment {
                reading: Reading::Idle,
                got: self.got.push((seq, copied)),
                ..self.with_ring(self.producer.ring.store(c, seq + 1))
            }
        } else {
            Moment { reading: Reading::Idle, ..self }
        }
    }

    /// Another consumer moves its cursor.
    pub open spec fn others_move(self, next: Self, c: int, d: int, s: nat) -> bool {
        &&& d != c
        &&& 0 <= d < self.producer.ring.cursors.len()
        &&& next == self.with_ring(self.producer.ring.store(d, s))
    }

    /// One step of anybody.
    pub open spec fn steps(self, next: Self, c: int, n: nat, m: nat) -> bool {
        ||| self.opens(next)
        ||| exists|i: int, x: T| #[trigger] self.puts(next, i, x, m)
        ||| self.publishes(next)
        ||| self.claims(next, c)
        ||| self.copies(next, m)
        ||| self.settles(next, c, n, m)
        ||| exists|d: int, s: nat| #[trigger] self.others_move(next, c, d, s)
    }

    /// A consumer on the ring that has read nothing yet and is not ahead of the
    /// producer; no block is under construction.
    pub open spec fn begins(self, c: int, n: nat, m: nat) -> bool {
        &&& self.producer.ring.wf(n, m)
        &&& 0 <= c < self.producer.ring.cursors.len()
        &&& self.producer.ring.cursors[c] <= self.producer.ring.head
        &&& !self.open
        &&& self.reading is Idle
        &&& self.got.len() == 0
    }
}

/// A run: one moment after the other.
pub open spec fn is_run<T>(run: Seq<Moment<T>>, c: int, n: nat, m: nat) -> bool {
    &&& run.len() > 0
    &&& run[0].begins(c, n, m)
    &&& forall|t: int|
        0 <= t < run.len() - 1 ==> (#[trigger] run[t]).steps(run[t + 1], c, n, m)
}

/// The moments from `a` to `b`, one step after the other.
pub open spec fn leads<T>(
    run: Seq<Moment<T>>,
    a: Moment<T>,
    b: Moment<T>,
    c: int,
    n: nat,
    m: nat,
) -> bool {
    &&& run.len() > 0
    &&& run[0] == a
    &&& run.last() == b
    &&& forall|t: int|
        0 <= t < run.len() - 1 ==> (#[trigger] run[t]).steps(run[t + 1], c, n, m)
}

/// One step more.
proof fn lemma_one_step_more<T>(
    run: Seq<Moment<T>>,
    a: Moment<T>,
    b: Moment<T>,
    d: Moment<T>,
    c: int,
    n: nat,
    m: nat,
)
    requires
        leads(run, a, b, c, n, m),
        b.steps(d, c, n, m),
    ensures
        leads(run.push(d), a, d, c, n, m),
{
    let more = run.push(d);
    assert forall|t: int| 0 <= t < more.len() - 1 implies (#[trigger] more[t]).steps(
        more[t + 1],
        c,
        n,
        m,
    ) by {
        if t < run.len() - 1 {
            assert(run[t].steps(run[t + 1], c, n, m));
        }
    }
}

/// What the calls of a consumer do to the ring is one step each: a claim, and the
/// check that closes a copy.
pub proof fn calls_are_steps<T>(a: Moment<T>, c: int, n: nat, m: nat)
    ensures
        a.reading is Idle ==> (a.producer.ring.claim(c) matches Some(seq) ==> a.steps(
            Moment {
                reading: Reading::Copying { seq, copied: Seq::empty() },
                ..a.with_ring(a.producer.ring.claimed(c))
            },
            c,
            n,
            m,
        )),
        a.reading matches Reading::Copying { seq, copied } ==> copied.len() == m ==> a.steps(
            if a.producer.ring.head - seq < n {
                Moment {
                    reading: Reading::Idle,
                    got: a.got.push((seq, copied)),
                    ..a.with_ring(a.producer.ring.store(c, seq + 1))
                }
            } else {
                Moment { reading: Reading::Idle, ..a }
            },
            c,
            n,
            m,
        ),
{
    if a.reading is Idle && a.producer.ring.claim(c) is Some {
        assert(a.claims(
            Moment {
                reading: Reading::Copying {
                    seq: a.producer.ring.claim(c)->0,
                    copied: Seq::empty(),
                },
                ..a.with_ring(a.producer.ring.claimed(c))
            },
            c,
        ));
    }
}

/// What a push does to the ring is a run of steps: the slot is opened where it
/// begins a block, one element stored, and the slot published where it completes
/// one. How many elements have been pushed is the producer's own affair.
pub proof fn push_is_a_run<T>(a: Moment<T>, x: T, c: int, n: nat, m: nat) -> (run: Seq<Moment<T>>)
    requires
        a.producer.wf(n, m),
        a.open <==> a.producer.fill > 0,
        a.producer.push(x, m).1 is Ok,
    ensures
        ({
            let after = a.producer.push(x, m).0;
            let b = Moment {
                producer: ProducerView { fill: a.producer.fill, ..after },
                open: after.fill > 0,
                ..a
            };
            leads(run, a, b, c, n, m)
        }),
{
    let fill = a.producer.fill;
    let opened = Moment {
        producer: if fill == 0 {
            a.producer.reap()
        } else {
            a.producer
        },
        open: true,
        ..a
    };
    let first = seq![a];
    assert(leads(first, a, a, c, n, m));
    let begun = if fill == 0 {
        assert(a.opens(opened));
        lemma_one_step_more(first, a, a, opened, c, n, m);
        first.push(opened)
    } else {
        first
    };
    let put = opened.with_ring(opened.producer.ring.put(fill as int, x));
    assert(opened.puts(put, fill as int, x, m));
    lemma_one_step_more(begun, a, opened, put, c, n, m);
    let stored = begun.push(put);
    if fill + 1 == m {
        let out = Moment { open: false, ..put.with_ring(put.producer.ring.publish()) };
        assert(put.publishes(out));
        lemma_one_step_more(stored, a, put, out, c, n, m);
        stored.push(out)
    } else {
        stored
    }
}

/// Copying the rest of a claimed block with nobody else at work.
proof fn lemma_copies<T>(
    run: Seq<Moment<T>>,
    a: Moment<T>,
    b: Moment<T>,
    c: int,
    n: nat,
    m: nat,
) -> (longer: Seq<Moment<T>>)
    requires
        leads(run, a, b, c, n, m),
        b.reading is Copying,
        b.reading->copied.len() <= m,
        b.producer.ring.block(b.reading->seq).len() == m,
        b.reading->copied == b.producer.ring.block(b.reading->seq).take(
            b.reading->copied.len() as int,
        ),
    ensures
        leads(
            longer,
            a,
            Moment {
                reading: Reading::Copying {
                    seq: b.reading->seq,
                    copied: b.producer.ring.block(b.reading->seq),
                },
                ..b
            },
            c,
            n,
            m,
        ),
    decreases m - b.reading->copied.len(),
{
    let seq = b.reading->seq;
    let copied = b.reading->copied;
    let block = b.producer.ring.block(seq);
    if copied.len() == m {
        assert(copied =~= block);
        run
    } else {
        let d = Moment {
            reading: Reading::Copying { seq, copied: copied.push(block[copied.len() as int]) },
            ..b
        };
        assert(b.copies(d, m));
        lemma_one_step_more(run, a, b, d, c, n, m);
        assert(d.reading->copied =~= block.take(copied.len() as int + 1));
        lemma_copies(run.push(d), a, d, c, n, m)
    }
}

/// What a read does to the ring, with nobody else at work, is a run of steps that
/// delivers the block it claims.
pub proof fn read_is_a_run<T>(a: Moment<T>, c: int, n: nat, m: nat) -> (run: Seq<Moment<T>>)
    requires
        n >= 2,
        a.producer.ring.wf(n, m),
        0 <= c < a.producer.ring.cursors.len(),
        a.reading is Idle,
        a.producer.ring.claim(c) is Some,
    ensures
        ({
            let ring = a.producer.ring;
            let seq = ring.claim(c)->0;
            let b = Moment {
                got: a.got.push((seq, ring.block(seq))),
                ..a.with_ring(ring.read(c))
            };
            leads(run, a, b, c, n, m)
        }),
{
    let ring = a.producer.ring;
    let seq = ring.claim(c)->0;
    vstd::arithmetic::div_mod::lemma_mod_bound(seq as int, n as int);
    let claimed = Moment {
        reading: Reading::Copying { seq, copied: Seq::empty() },
        ..a.with_ring(ring.claimed(c))
    };
    let first = seq![a];
    assert(leads(first, a, a, c, n, m));
    calls_are_steps(a, c, n, m);
    lemma_one_step_more(first, a, a, claimed, c, n, m);
    assert(Seq::<T>::empty() =~= ring.block(seq).take(0));
    let copying = lemma_copies(first.push(claimed), a, claimed, c, n, m);
    let copied = Moment {
        reading: Reading::Copying { seq, copied: ring.block(seq) },
        ..claimed
    };
    let b = Moment { got: a.got.push((seq, ring.block(seq))), ..a.with_ring(ring.read(c)) };
    calls_are_steps(copied, c, n, m);
    assert(ring.claimed(c).store(c, seq + 1) =~= ring.read(c));
    assert(copied.settles(b, c, n, m));
    lemma_one_step_more(copying, a, copied, b, c, n, m);
    copying.push(b)
}

/// What holds at every moment: what was delivered is what was published, in
/// order, and a copy under way is good for as long as the producer has not come a
/// lap further.
spec fn sound<T>(a: Moment<T>, c: int, n: nat, m: nat) -> bool {
    let ring = a.producer.ring;
    &&& ring.wf(n, m)
    &&& 0 <= c < ring.cursors.len()
    &&& ring.cursors[c] <= ring.head
    &&& forall|k: int|
        0 <= k < a.got.len() ==> (#[trigger] a.got[k]).0 < ring.cursors[c] && a.got[k].1
            == ring.published[a.got[k].0 as int]
    &&& forall|j: int, k: int|
        0 <= j < k < a.got.len() ==> (#[trigger] a.got[j]).0 < (#[trigger] a.got[k]).0
    &&& a.reading matches Reading::Copying { seq, copied } ==> {
        &&& ring.cursors[c] == seq
        &&& seq < ring.head
        &&& copied.len() <= m
        &&& ring.head - seq < n ==> copied == ring.published[seq as int].take(
            copied.len() as int,
        )
    }
}

/// A block that can still be told from its successor has the right length.
proof fn lemma_clear_block<T>(ring: RingView<T>, seq: nat, n: nat, m: nat)
    requires
        ring.wf(n, m),
        ring.clear(seq),
    ensures
        ring.block(seq) == ring.published[seq as int],
        ring.published[seq as int].len() == m,
{
    vstd::arithmetic::div_mod::lemma_mod_bound(seq as int, n as int);
    assert(ring.block(seq) == ring.published[seq as int]);
}

/// Every step keeps it.
proof fn lemma_step_is_sound<T>(a: Moment<T>, b: Moment<T>, c: int, n: nat, m: nat)
    requires
        n >= 2,
        sound(a, c, n, m),
        a.steps(b, c, n, m),
    ensures
        sound(b, c, n, m),
{
    let ring = a.producer.ring;
    vstd::arithmetic::div_mod::lemma_mod_bound(ring.head as int, n as int);
    if a.opens(b) {
        assert(b.producer.ring == ring);
    } else if exists|i: int, x: T| #[trigger] a.puts(b, i, x, m) {
        let (i, x) = choose|i: int, x: T| #[trigger] a.puts(b, i, x, m);
        ring.lemma_fill(n, m, ring.block(ring.head).update(i, x));
    } else if a.publishes(b) {
        ring.lemma_publish(n, m);
    } else if a.claims(b, c) {
        let seq = ring.claim(c)->0;
        ring.lemma_store(n, m, c, seq);
        lemma_clear_block(ring, seq, n, m);
        assert(Seq::<T>::empty() =~= ring.published[seq as int].take(0));
    } else if a.copies(b, m) {
        let seq = a.reading->seq;
        let copied = a.reading->copied;
        if ring.head - seq < n {
            lemma_clear_block(ring, seq, n, m);
            assert(b.reading->copied =~= ring.published[seq as int].take(
                copied.len() as int + 1,
            ));
        }
    } else if a.settles(b, c, n, m) {
        let seq = a.reading->seq;
        let copied = a.reading->copied;
        if ring.head - seq < n {
            lemma_clear_block(ring, seq, n, m);
            ring.lemma_store(n, m, c, seq + 1);
            assert(ring.published[seq as int].take(m as int) =~= ring.published[seq as int]);
        }
    } else {
        let (d, s) = choose|d: int, s: nat| #[trigger] a.others_move(b, c, d, s);
        ring.lemma_store(n, m, d, s);
    }
}

/// Every moment of a run is sound.
proof fn lemma_run_is_sound<T>(run: Seq<Moment<T>>, c: int, n: nat, m: nat, t: int)
    requires
        n >= 2,
        is_run(run, c, n, m),
        0 <= t < run.len(),
    ensures
        sound(run[t], c, n, m),
    decreases t,
{
    if t > 0 {
        lemma_run_is_sound(run, c, n, m, t - 1);
        assert(run[t - 1].steps(run[t - 1 + 1], c, n, m));
        lemma_step_is_sound(run[t - 1], run[t], c, n, m);
    }
}

/// Whatever the speeds of the two threads, blocking or not: every read that comes
/// back `Ok` has delivered one whole block as it was published, and successive
/// ones have delivered blocks with ever higher sequence numbers.
pub proof fn reads_deliver_whole_blocks_in_order<T>(
    run: Seq<Moment<T>>,
    c: int,
    n: nat,
    m: nat,
    t: int,
)
    requires
        n >= 2,
        is_run(run, c, n, m),
        0 <= t < run.len(),
    ensures
        forall|k: int|
            0 <= k < run[t].got.len() ==> (#[trigger] run[t].got[k]).0
                < run[t].producer.ring.head && run[t].got[k].1
                == run[t].producer.ring.published[run[t].got[k].0 as int],
        forall|j: int, k: int|
            0 <= j < k < run[t].got.len() ==> (#[trigger] run[t].got[j]).0 < (
            #[trigger] run[t].got[k]).0,
{
    lemma_run_is_sound(run, c, n, m, t);
}

/// What holds at every moment behind a blocking producer: it never comes a lap
/// further than the consumer, which has got every block since it began.
spec fn complete<T>(a: Moment<T>, c: int, n: nat, start: nat) -> bool {
    let ring = a.producer.ring;
    &&& a.producer.blocking
    &&& registered(a.producer, c)
    &&& ring.head - ring.cursors[c] + (if a.open {
        2int
    } else {
        1int
    }) <= n
    &&& ring.cursors[c] == start + a.got.len()
    &&& forall|k: int| 0 <= k < a.got.len() ==> (#[trigger] a.got[k]).0 == start + k
}

/// Every step keeps it.
proof fn lemma_step_is_complete<T>(
    a: Moment<T>,
    b: Moment<T>,
    c: int,
    n: nat,
    m: nat,
    start: nat,
)
    requires
        n >= 2,
        sound(a, c, n, m),
        complete(a, c, n, start),
        a.steps(b, c, n, m),
    ensures
        complete(b, c, n, start),
{
    let ring = a.producer.ring;
    vstd::arithmetic::div_mod::lemma_mod_bound(ring.head as int, n as int);
    if a.opens(b) {
        let keep = |r: Registration| !r.finished;
        let i = choose|i: int|
            0 <= i < a.producer.consumers.len() && (#[trigger] a.producer.consumers[i]).cursor == c
                && !a.producer.consumers[i].finished;
        let kept = a.producer.consumers.filter(keep);
        a.producer.consumers.lemma_filter_contains(keep, i);
        let j = choose|j: int| 0 <= j < kept.len() && kept[j] == a.producer.consumers[i];
        assert(a.producer.reap().consumers[j].cursor == c);
        assert(!a.producer.reap().gated());
        assert(registered(b.producer, c)) by {
            assert(b.producer.consumers[j].cursor == c);
        }
    } else {
        assert(b.producer.consumers == a.producer.consumers);
        let i = choose|i: int|
            0 <= i < a.producer.consumers.len() && (#[trigger] a.producer.consumers[i]).cursor == c
                && !a.producer.consumers[i].finished;
        assert(b.producer.consumers[i].cursor == c);
    }
}

/// Blocks are lost in non-blocking mode alone: behind a blocking producer that
/// gates against it, a consumer gets every block since it began, each once and in
/// order, whatever the speeds of the two threads.
pub proof fn blocking_threads_lose_nothing<T>(
    run: Seq<Moment<T>>,
    c: int,
    n: nat,
    m: nat,
    t: int,
)
    requires
        n >= 2,
        is_run(run, c, n, m),
        run[0].producer.blocking,
        registered(run[0].producer, c),
        run[0].producer.ring.lag(c) < n,
        0 <= t < run.len(),
    ensures
        forall|k: int|
            0 <= k < run[t].got.len() ==> (#[trigger] run[t].got[k]) == (
                (run[0].producer.ring.cursors[c] + k) as nat,
                run[t].producer.ring.published[run[0].producer.ring.cursors[c] + k],
            ),
        run[t].producer.ring.cursors[c] == run[0].producer.ring.cursors[c] + run[t].got.len(),
{
    lemma_run_is_complete(run, c, n, m, t);
    lemma_run_is_sound(run, c, n, m, t);
}

proof fn lemma_run_is_complete<T>(run: Seq<Moment<T>>, c: int, n: nat, m: nat, t: int)
    requires
        n >= 2,
        is_run(run, c, n, m),
        run[0].producer.blocking,
        registered(run[0].producer, c),
        run[0].producer.ring.lag(c) < n,
        0 <= t < run.len(),
    ensures
        complete(run[t], c, n, run[0].producer.ring.cursors[c]),
    decreases t,
{
    if t > 0 {
        lemma_run_is_complete(run, c, n, m, t - 1);
        lemma_run_is_sound(run, c, n, m, t - 1);
        assert(run[t - 1].steps(run[t - 1 + 1], c, n, m));
        lemma_step_is_complete(
            run[t - 1],
            run[t],
            c,
            n,
            m,
            run[0].producer.ring.cursors[c],
        );
    }
}

} // verus!
