//! What each call on a ring does, in terms of slots, sequence numbers and cursors.

use vstd::prelude::*;

use crate::buffer::Buffer;
use crate::exceptions::CustomError;
use crate::spmc::amid::Act;
use crate::spmc::laws::push_all;
use crate::spmc::model::{ProducerView, Registration, RingView};
use crate::spmc::{
    push_wakes, reader_action, write_wakes, ReadGuard, Reader, ReaderAction, Ring, RingConsumer,
    RingProducer,
};

verus! {

/// Some consumer that is still running has so many published blocks left to read that
/// only the guard slot is free.
pub open spec fn stuck<T>(p: ProducerView<T>, n: int) -> bool {
    exists|i: int|
        0 <= i < p.consumers.len() && !(#[trigger] p.consumers[i]).finished && p.ring.head
            - p.ring.cursors[p.consumers[i].cursor as int] >= n - 1
}

/// The consumers that are still running, in their order.
pub open spec fn running(before: Seq<Registration>, after: Seq<Registration>) -> bool {
    &&& forall|i: int| 0 <= i < after.len() ==> !(#[trigger] after[i]).finished
    &&& forall|i: int|
        0 <= i < before.len() ==> (!(#[trigger] before[i]).finished ==> after.contains(before[i]))
    &&& forall|i: int| 0 <= i < after.len() ==> before.contains(#[trigger] after[i])
    &&& after.len() <= before.len()
    &&& (forall|i: int| 0 <= i < before.len() ==> !(#[trigger] before[i]).finished) ==> after
        == before
}

proof fn lemma_running(s: Seq<Registration>)
    ensures
        running(s, s.filter(|r: Registration| !r.finished)),
    decreases s.len(),
{
    let live = |r: Registration| !r.finished;
    let t = s.filter(live);
    s.lemma_filter_len(live);
    assert forall|i: int| 0 <= i < t.len() implies !(#[trigger] t[i]).finished by {
        s.lemma_filter_pred(live, i);
    }
    assert forall|i: int| 0 <= i < s.len() && !(#[trigger] s[i]).finished implies t.contains(
        s[i],
    ) by {
        s.lemma_filter_contains(live, i);
    }
    assert forall|i: int| 0 <= i < t.len() implies s.contains(#[trigger] t[i]) by {
        s.lemma_filter_contains_rev(live, t[i]);
    }
    reveal(Seq::filter);
    if s.len() > 0 {
        lemma_running(s.drop_last());
        if forall|i: int| 0 <= i < s.len() ==> !(#[trigger] s[i]).finished {
            assert forall|i: int| 0 <= i < s.drop_last().len() implies !(
            #[trigger] s.drop_last()[i]).finished by {
                assert(!s[i].finished);
            }
            assert(live(s.last())) by {
                assert(!s[s.len() - 1].finished);
            }
            assert(s.drop_last().filter(live) == s.drop_last());
            assert(t =~= s);
        }
    } else {
        assert(t =~= s);
    }
}

/// Nobody that has ended keeps the producer waiting, and everybody else does once only
/// the guard slot is free.
proof fn lemma_stuck<T>(p: ProducerView<T>, n: nat, m: nat)
    requires
        p.wf(n, m),
        n >= 2,
    ensures
        p.refuses() <==> p.blocking && stuck(p, n as int),
{
    let live = |r: Registration| !r.finished;
    let t = p.consumers.filter(live);
    lemma_running(p.consumers);
    assert(p.reap().consumers == t);
    assert(p.reap().ring == p.ring);
    if p.reap().gated() {
        let i = choose|i: int|
            0 <= i < t.len() && p.ring.lag((#[trigger] t[i]).cursor as int) >= p.ring.slots.len()
                - 1;
        assert(p.consumers.contains(t[i]));
        let j = choose|j: int| 0 <= j < p.consumers.len() && p.consumers[j] == t[i];
        assert(!p.consumers[j].finished);
    }
    if stuck(p, n as int) {
        let i = choose|i: int|
            0 <= i < p.consumers.len() && !(#[trigger] p.consumers[i]).finished && p.ring.head
                - p.ring.cursors[p.consumers[i].cursor as int] >= n - 1;
        assert(t.contains(p.consumers[i]));
        let j = choose|j: int| 0 <= j < t.len() && t[j] == p.consumers[i];
        assert(p.ring.lag(t[j].cursor as int) >= p.ring.slots.len() - 1);
        assert(p.reap().consumers[j] == t[j]);
    }
}

/// A new producer has published nothing and has nobody to wait for.
pub proof fn new_ring_is_empty<T: Copy + Default, const N: usize, const M: usize>(
    blocking: bool,
    p: RingProducer<T, N, M>,
)
    requires
        call_ensures(RingProducer::<T, N, M>::new, (blocking,), p),
    ensures
        p@.ring.head == 0,
        p@.ring.published.len() == 0,
        p@.ring.slots.len() == N,
        p@.ring.cursors.len() == 0,
        p@.consumers.len() == 0,
        p@.fill == 0,
        p@.blocking == blocking,
{
}

/// A write is refused exactly where the producer blocks and a running consumer leaves
/// it only the guard slot, and otherwise where the block is not of `M` elements. A
/// block that is not refused is published in the slot of the head, and only that slot
/// and the head change.
pub proof fn write_publishes_the_block<T: Copy + Default, const N: usize, const M: usize>(
    p: &mut RingProducer<T, N, M>,
    src: &[T],
    r: Result<(), CustomError>,
)
    requires
        N >= 2,
        old(p).wf(),
        call_ensures(RingProducer::<T, N, M>::write, (p, src), r),
    ensures
        ({
            let a = old(p)@;
            let b = final(p)@;
            let refused = a.blocking && stuck(a, N as int);
            &&& b.blocking == a.blocking
            &&& b.fill == a.fill
            &&& running(a.consumers, b.consumers)
            &&& b.ring.cursors == a.ring.cursors
            &&& refused ==> r == Err::<(), CustomError>(CustomError::SlowConsumer)
            &&& !refused && src@.len() != M ==> r == Err::<(), CustomError>(
                CustomError::MismatchInputLength,
            )
            &&& !refused && src@.len() == M ==> r is Ok
            &&& r is Err ==> b.ring == a.ring
            &&& r is Ok ==> {
                &&& b.ring.head == a.ring.head + 1
                &&& b.ring.published == a.ring.published.push(src@)
                &&& b.ring.slots == a.ring.slots.update(a.ring.head as int % N as int, src@)
            }
        }),
{
    let a = old(p)@;
    lemma_running(a.consumers);
    lemma_stuck(a, N as nat, M as nat);
    vstd::arithmetic::div_mod::lemma_mod_bound(a.ring.head as int, N as int);
}

/// A push stores one element behind those already there. It is refused where a write
/// would be, but only before the first; the last of `M` publishes the block.
pub proof fn push_fills_the_block<T: Copy + Default, const N: usize, const M: usize>(
    p: &mut RingProducer<T, N, M>,
    x: T,
    r: Result<bool, CustomError>,
)
    requires
        N >= 2,
        M >= 1,
        old(p).wf(),
        call_ensures(RingProducer::<T, N, M>::push, (p, x), r),
    ensures
        ({
            let a = old(p)@;
            let b = final(p)@;
            let i = a.ring.head as int % N as int;
            let block = a.ring.slots[i].update(a.fill as int, x);
            let refused = a.fill == 0 && a.blocking && stuck(a, N as int);
            &&& b.blocking == a.blocking
            &&& b.ring.cursors == a.ring.cursors
            &&& a.fill == 0 ==> running(a.consumers, b.consumers)
            &&& a.fill > 0 ==> b.consumers == a.consumers
            &&& refused ==> r == Err::<bool, CustomError>(CustomError::SlowConsumer) && b.ring
                == a.ring && b.fill == a.fill
            &&& !refused ==> r == Ok::<bool, CustomError>(a.fill + 1 == M) && b.ring.slots
                == a.ring.slots.update(i, block)
            &&& !refused && a.fill + 1 < M ==> {
                &&& b.fill == a.fill + 1
                &&& b.ring.head == a.ring.head
                &&& b.ring.published == a.ring.published
            }
            &&& !refused && a.fill + 1 == M ==> {
                &&& b.fill == 0
                &&& b.ring.head == a.ring.head + 1
                &&& b.ring.published == a.ring.published.push(block)
            }
        }),
{
    let a = old(p)@;
    lemma_running(a.consumers);
    lemma_stuck(a, N as nat, M as nat);
    vstd::arithmetic::div_mod::lemma_mod_bound(a.ring.head as int, N as int);
}

/// Everything a producer has been given: the blocks it has published, end to end, and
/// what is in the block under construction.
pub open spec fn written<T>(p: ProducerView<T>) -> Seq<T> {
    p.ring.published.flatten() + p.ring.slots[p.ring.head as int
        % p.ring.slots.len() as int].take(p.fill as int)
}

proof fn lemma_pushed<T>(p: ProducerView<T>, x: T, n: nat, m: nat)
    requires
        p.wf(n, m),
        m >= 1,
        !p.blocking,
    ensures
        p.push(x, m).1 is Ok,
        written(p.push(x, m).0) == written(p).push(x),
        p.push(x, m).0.wf(n, m),
        !p.push(x, m).0.blocking,
        p.push(x, m).0.ring.cursors == p.ring.cursors,
{
    let q = p.push(x, m).0;
    let i = p.ring.head as int % n as int;
    vstd::arithmetic::div_mod::lemma_mod_bound(p.ring.head as int, n as int);
    let open = p.ring.slots[i];
    let block = open.update(p.fill as int, x);
    lemma_running(p.consumers);
    p.ring.lemma_fill(n, m, block);
    p.ring.fill(block).lemma_publish(n, m);
    assert forall|j: int| 0 <= j < q.consumers.len() implies (#[trigger] q.consumers[j]).cursor
        < q.ring.cursors.len() by {
        if p.fill == 0 {
            assert(p.consumers.contains(q.consumers[j]));
        }
    }
    if p.fill + 1 < m {
        assert(q.ring.slots[i] == block);
        assert(block.take(p.fill as int + 1) =~= open.take(p.fill as int).push(x));
        assert(written(q) =~= written(p).push(x));
    } else {
        assert(block =~= open.take(p.fill as int).push(x));
        p.ring.published.lemma_flatten_push(block);
        assert(q.ring.published =~= p.ring.published.push(block));
        let next = q.ring.head as int % n as int;
        vstd::arithmetic::div_mod::lemma_mod_bound(q.ring.head as int, n as int);
        assert(q.ring.slots[next].take(0) =~= Seq::<T>::empty());
        assert(written(q) =~= written(p).push(x));
    }
}

/// Elements that are pushed follow one another without a gap, through as many blocks as
/// they take: a producer that does not block has been given what it had been given
/// before, and then the elements.
pub proof fn pushes_follow_one_another<T>(p: ProducerView<T>, xs: Seq<T>, n: nat, m: nat)
    requires
        p.wf(n, m),
        m >= 1,
        !p.blocking,
    ensures
        written(push_all(p, xs, m)) == written(p) + xs,
        push_all(p, xs, m).wf(n, m),
        !push_all(p, xs, m).blocking,
        push_all(p, xs, m).ring.cursors == p.ring.cursors,
    decreases xs.len(),
{
    if xs.len() == 0 {
        assert(written(p) + xs =~= written(p));
    } else {
        pushes_follow_one_another(p, xs.drop_last(), n, m);
        lemma_pushed(push_all(p, xs.drop_last(), m), xs.last(), n, m);
        assert((written(p) + xs.drop_last()).push(xs.last()) =~= written(p) + xs);
    }
}

/// A new consumer has a cursor of its own, at the very first block, and nothing else
/// changes; registering it, noting its end and forgetting everybody change only whom
/// the producer waits for.
pub proof fn consumers_come_and_go<T: Copy + Default, const N: usize, const M: usize>(
    p: &mut RingProducer<T, N, M>,
    c: RingConsumer,
    q: &mut RingProducer<T, N, M>,
    cursor: usize,
    s: &mut RingProducer<T, N, M>,
    i: usize,
    t: &mut RingProducer<T, N, M>,
    all: Vec<Registration>,
)
    requires
        call_ensures(RingProducer::<T, N, M>::subscribe, (p,), c),
        call_ensures(RingProducer::<T, N, M>::add_consumer, (q, cursor), ()),
        i < old(s)@.consumers.len(),
        call_ensures(RingProducer::<T, N, M>::finish, (s, i), ()),
        call_ensures(RingProducer::<T, N, M>::join_all, (t,), all),
    ensures
        c@ == old(p)@.ring.cursors.len(),
        final(p)@.ring.cursors == old(p)@.ring.cursors.push(0),
        final(p)@.ring.slots == old(p)@.ring.slots,
        final(p)@.ring.head == old(p)@.ring.head,
        final(p)@.ring.published == old(p)@.ring.published,
        final(p)@.consumers == old(p)@.consumers,
        final(p)@.blocking == old(p)@.blocking,
        final(p)@.fill == old(p)@.fill,
        final(q)@.consumers.len() == old(q)@.consumers.len() + 1,
        final(q)@.consumers.drop_last() == old(q)@.consumers,
        final(q)@.consumers.last().cursor == cursor,
        !final(q)@.consumers.last().finished,
        final(q)@.ring == old(q)@.ring,
        final(q)@.blocking == old(q)@.blocking,
        final(q)@.fill == old(q)@.fill,
        final(s)@.consumers.len() == old(s)@.consumers.len(),
        final(s)@.consumers[i as int].finished,
        final(s)@.consumers[i as int].cursor == old(s)@.consumers[i as int].cursor,
        forall|j: int|
            0 <= j < old(s)@.consumers.len() && j != i ==> final(s)@.consumers[j] == old(s)@.consumers[j],
        final(s)@.ring == old(s)@.ring,
        final(s)@.blocking == old(s)@.blocking,
        final(s)@.fill == old(s)@.fill,
        all@ == old(t)@.consumers,
        final(t)@.consumers.len() == 0,
        final(t)@.ring == old(t)@.ring,
        final(t)@.blocking == old(t)@.blocking,
        final(t)@.fill == old(t)@.fill,
{
    assert(final(q)@.consumers.drop_last() =~= old(q)@.consumers);
}

/// Only the cursor of consumer `c` differs, if anything does.
pub open spec fn only_cursor<T>(a: RingView<T>, b: RingView<T>, c: int) -> bool {
    &&& b.slots == a.slots
    &&& b.head == a.head
    &&& b.published == a.published
    &&& b.cursors.len() == a.cursors.len()
    &&& forall|d: int| 0 <= d < a.cursors.len() && d != c ==> b.cursors[d] == a.cursors[d]
}

/// Where a consumer reads next: at its cursor, or in the middle of the ring where the
/// producer is a whole lap ahead.
pub open spec fn next_seq<T>(a: RingView<T>, n: int, c: int) -> int {
    if a.head - a.cursors[c] >= n {
        a.head - n / 2
    } else {
        a.cursors[c] as int
    }
}

/// A claim names the block to read next and leaves the cursor on it; where everything
/// has been read, it says so and changes nothing.
pub proof fn claim_names_the_next_block<T: Copy + Default, const N: usize, const M: usize>(
    c: &RingConsumer,
    ring: &mut Ring<T, N, M>,
    r: Result<u64, CustomError>,
)
    requires
        N >= 2,
        old(ring).wf(),
        c@ < old(ring)@.cursors.len(),
        call_ensures(RingConsumer::claim::<T, N, M>, (c, ring), r),
    ensures
        ({
            let a = old(ring)@;
            let b = final(ring)@;
            let me = c@ as int;
            &&& only_cursor(a, b, me)
            &&& a.cursors[me] >= a.head ==> r == Err::<u64, CustomError>(
                CustomError::SlowProducer,
            ) && b.cursors[me] == a.cursors[me]
            &&& a.cursors[me] < a.head ==> r is Ok && r->Ok_0 == next_seq(a, N as int, me)
                && b.cursors[me] == next_seq(a, N as int, me)
        }),
{
}

/// A read hands out what the slot of the next block holds and moves the cursor past
/// it.
pub proof fn read_hands_out_the_next_block<'a, T: Copy + Default, const N: usize, const M: usize>(
    c: &RingConsumer,
    ring: &'a mut Ring<T, N, M>,
    r: Result<&'a [T], CustomError>,
)
    requires
        N >= 2,
        old(ring).wf(),
        c@ < old(ring)@.cursors.len(),
        call_ensures(RingConsumer::read::<T, N, M>, (c, ring), r),
    ensures
        ({
            let a = old(ring)@;
            let b = final(ring)@;
            let me = c@ as int;
            let seq = next_seq(a, N as int, me);
            &&& only_cursor(a, b, me)
            &&& a.cursors[me] >= a.head ==> r == Err::<&[T], CustomError>(
                CustomError::SlowProducer,
            ) && b.cursors[me] == a.cursors[me]
            &&& a.cursors[me] < a.head ==> r is Ok && b.cursors[me] == seq + 1
            &&& a.cursors[me] < a.head ==> r->Ok_0@ == a.slots[seq % N as int]
            &&& a.cursors[me] < a.head ==> r->Ok_0@ == a.published[seq]
        }),
{
    let a = old(ring)@;
    let me = c@ as int;
    if a.cursors[me] < a.head {
        let seq = next_seq(a, N as int, me) as nat;
        assert(a.clear(seq));
        assert(a.block(seq) == a.published[seq as int]);
    }
}

/// Copying a block is reading it: into a buffer of `M` elements, the same block, and
/// the same cursor after it. Another buffer is refused and nothing changes.
pub proof fn copying_is_reading<T: Copy + Default, const N: usize, const M: usize>(
    c: &RingConsumer,
    ring: &mut Ring<T, N, M>,
    buf: &mut [T],
    r: Result<(), CustomError>,
)
    requires
        N >= 2,
        old(ring).wf(),
        c@ < old(ring)@.cursors.len(),
        call_ensures(RingConsumer::read_into::<T, N, M>, (c, ring, buf), r),
    ensures
        ({
            let a = old(ring)@;
            let b = final(ring)@;
            let me = c@ as int;
            let seq = next_seq(a, N as int, me);
            &&& only_cursor(a, b, me)
            &&& old(buf)@.len() != M ==> r == Err::<(), CustomError>(
                CustomError::MismatchInputLength,
            )
            &&& old(buf)@.len() == M && a.cursors[me] >= a.head ==> r == Err::<(), CustomError>(
                CustomError::SlowProducer,
            )
            &&& r is Err ==> b.cursors[me] == a.cursors[me] && final(buf)@ == old(buf)@
            &&& old(buf)@.len() == M && a.cursors[me] < a.head ==> r is Ok && b.cursors[me] == seq
                + 1 && final(buf)@ == a.slots[seq % N as int] && final(buf)@ == a.published[seq]
        }),
{
    let a = old(ring)@;
    let me = c@ as int;
    if a.cursors[me] < a.head {
        let seq = next_seq(a, N as int, me) as nat;
        assert(a.clear(seq));
        assert(a.block(seq) == a.published[seq as int]);
    }
}

/// What is written is read: a consumer that had read everything reads the very block
/// that the next write publishes.
pub proof fn what_is_written_is_read<'a, T: Copy + Default, const N: usize, const M: usize>(
    p: &mut RingProducer<T, N, M>,
    src: &[T],
    c: &RingConsumer,
    ring: &'a mut Ring<T, N, M>,
    got: Result<&'a [T], CustomError>,
)
    requires
        N >= 2,
        old(p).wf(),
        old(ring).wf(),
        c@ < old(p)@.ring.cursors.len(),
        old(p)@.ring.cursors[c@ as int] == old(p)@.ring.head,
        call_ensures(
            RingProducer::<T, N, M>::write,
            (p, src),
            Ok::<(), CustomError>(()),
        ),
        old(ring)@ == final(p)@.ring,
        call_ensures(RingConsumer::read::<T, N, M>, (c, ring), got),
    ensures
        got is Ok,
        got->Ok_0@ == src@,
        final(ring)@.cursors[c@ as int] == final(ring)@.head,
{
    write_publishes_the_block(p, src, Ok::<(), CustomError>(()));
    read_hands_out_the_next_block(c, ring, got);
}

/// Jumping to the newest block moves this consumer's cursor onto it, and nothing else.
pub proof fn seeking_goes_to_the_newest<T: Copy + Default, const N: usize, const M: usize>(
    c: &RingConsumer,
    ring: &mut Ring<T, N, M>,
)
    requires
        c@ < old(ring)@.cursors.len(),
        call_ensures(RingConsumer::seek_latest::<T, N, M>, (c, ring), ()),
    ensures
        only_cursor(old(ring)@, final(ring)@, c@ as int),
        old(ring)@.head > 0 ==> final(ring)@.cursors[c@ as int] + 1 == old(ring)@.head,
        old(ring)@.head == 0 ==> final(ring)@.cursors[c@ as int] == 0,
{
}

/// A copy is good as long as the producer is less than a lap ahead of the block. A good
/// one moves the cursor past the block; after a bad one nothing has moved, and the
/// fourth try is the last.
pub proof fn a_copy_is_settled<T: Copy + Default, const N: usize, const M: usize>(
    c: &RingConsumer,
    shared: &Ring<T, N, M>,
    good: bool,
    ring: &mut Ring<T, N, M>,
    seq: u64,
    attempt: usize,
    r: Result<bool, CustomError>,
)
    requires
        call_ensures(RingConsumer::validate::<T, N, M>, (c, shared, seq), good),
        c@ < old(ring)@.cursors.len(),
        attempt < 4,
        call_ensures(RingConsumer::settle::<T, N, M>, (c, ring, seq, attempt), r),
    ensures
        good <==> shared@.head < seq + N,
        only_cursor(old(ring)@, final(ring)@, c@ as int),
        old(ring)@.head < seq + N ==> r == Ok::<bool, CustomError>(true) && final(ring)@.cursors[c@ as int] == seq + 1,
        old(ring)@.head >= seq + N ==> final(ring)@.cursors[c@ as int] == old(ring)@.cursors[c@ as int],
        old(ring)@.head >= seq + N && attempt < 3 ==> r == Ok::<bool, CustomError>(false),
        old(ring)@.head >= seq + N && attempt == 3 ==> r == Err::<bool, CustomError>(
            CustomError::SlowConsumer,
        ),
{
}

/// A guard holds the block that a claim names, with the cursor on it; while it is held
/// it shows what the block's slot holds and whether the producer has come into it; and
/// releasing it moves the cursor past the block.
pub proof fn a_guard_holds_its_block<'a, 'b, T: Copy + Default, const N: usize, const M: usize>(
    c: &'a mut RingConsumer,
    ring: &mut Ring<T, N, M>,
    r: Result<ReadGuard<'a>, CustomError>,
    g: ReadGuard<'a>,
    shared: &'b Ring<T, N, M>,
    valid: bool,
    held: &'b [T],
    later: &mut Ring<T, N, M>,
)
    requires
        N >= 2,
        old(ring).wf(),
        old(c)@ < old(ring)@.cursors.len(),
        call_ensures(RingConsumer::read_guard::<T, N, M>, (c, ring), r),
        shared.wf(),
        call_ensures(ReadGuard::<'a>::is_valid::<T, N, M>, (&g, shared), valid),
        call_ensures(ReadGuard::<'a>::block::<T, N, M>, (&g, shared), held),
        g@.0 < old(later)@.cursors.len(),
        call_ensures(ReadGuard::<'a>::release::<T, N, M>, (g, later), ()),
    ensures
        ({
            let a = old(ring)@;
            let b = final(ring)@;
            let me = old(c)@ as int;
            &&& final(c)@ == old(c)@
            &&& only_cursor(a, b, me)
            &&& a.cursors[me] >= a.head ==> r is Err && r->Err_0 == CustomError::SlowProducer
                && b.cursors[me] == a.cursors[me]
            &&& a.cursors[me] < a.head ==> r is Ok && r->Ok_0@.0 == me && r->Ok_0@.1 == next_seq(
                a,
                N as int,
                me,
            ) && b.cursors[me] == next_seq(a, N as int, me)
        }),
        valid <==> shared@.head < g@.1 + N,
        held@ == shared@.slots[g@.1 as int % N as int],
        only_cursor(old(later)@, final(later)@, g@.0 as int),
        final(later)@.cursors[g@.0 as int] == g@.1 + 1,
{
}

/// A ring answers for its head, its cursors and its slots.
pub proof fn a_ring_says_what_it_holds<T: Copy + Default, const N: usize, const M: usize>(
    ring: &Ring<T, N, M>,
    c: &RingConsumer,
    at: u64,
    head: u64,
    seen: u64,
    n: usize,
)
    requires
        c@ < ring@.cursors.len(),
        call_ensures(RingConsumer::head::<T, N, M>, (c, ring), at),
        call_ensures(Ring::<T, N, M>::head, (ring,), head),
        call_ensures(Ring::<T, N, M>::head_relaxed, (ring,), seen),
        call_ensures(Ring::<T, N, M>::consumers, (ring,), n),
    ensures
        at == ring@.cursors[c@ as int],
        head == ring@.head,
        seen == head,
        n == ring@.cursors.len(),
{
}

/// Consumers are woken by a block that was published and by one that was refused for
/// their sake, and by nothing else.
pub proof fn consumers_are_woken(
    w: Result<(), CustomError>,
    a: bool,
    p: Result<bool, CustomError>,
    b: bool,
)
    requires
        call_ensures(write_wakes, (&w,), a),
        call_ensures(push_wakes, (&p,), b),
    ensures
        w is Ok ==> a,
        w matches Err(e) ==> (a <==> e == CustomError::SlowConsumer),
        p matches Ok(published) ==> b == published,
        p matches Err(e) ==> (b <==> e == CustomError::SlowConsumer),
{
}

/// A reading loop hands on every block. An empty read makes one without a timeout try
/// again and one with a timeout park for that long; a second one in a row ends it.
pub proof fn a_reader_parks_before_it_stops(
    r: &mut Reader,
    got: bool,
    a: ReaderAction,
    s: &mut Reader,
    b: ReaderAction,
)
    requires
        call_ensures(Reader::step, (r, got), a),
        old(s)@ == final(r)@,
        call_ensures(Reader::step, (s, false), b),
    ensures
        got ==> a is Deliver,
        !got && !old(r)@.1 ==> (old(r)@.0 matches Some(secs) ==> a == ReaderAction::Park(secs)),
        !got && !old(r)@.1 ==> (old(r)@.0 is None ==> a is Again),
        !got && old(r)@.1 ==> a is Stop,
        final(r)@.0 == old(r)@.0,
        b is Stop <==> a is Park,
        got ==> !(b is Stop),
{
}

/// What the reading loop does is decided by its own state and the read alone.
pub proof fn a_reader_starts_unparked(c: &RingConsumer, timeout: Option<u64>, r: Reader)
    requires
        call_ensures(RingConsumer::start_reading, (c, timeout), r),
    ensures
        r@.0 == timeout,
        !r@.1,
        !(reader_action(r@, false) is Stop),
{
}

/// A new ring holds blocks of one default value.
pub proof fn new_slots_hold_defaults<T: Copy + Default, const N: usize, const M: usize>(
    r: Ring<T, N, M>,
    i: int,
)
    requires
        call_ensures(Ring::<T, N, M>::new, (), r),
        0 <= i < N,
    ensures
        r@.head == 0,
        r@.cursors.len() == 0,
        r@.published.len() == 0,
        exists|d: T| #[trigger]
            call_ensures(T::default, (), d) && r@.slots[i] == Seq::new(M as nat, |j: int| d),
{
    assert(crate::spmc::defaults(r@.slots[i], M as nat));
}

/// Handles and counts are what they stand for, and what is done to a producer's ring is
/// done to the producer, and to nothing else of it.
pub proof fn handles_are_what_they_stand_for<
    'a,
    'b,
    T: Copy + Default,
    const N: usize,
    const M: usize,
>(
    p: &'b RingProducer<T, N, M>,
    ring: &'b Ring<T, N, M>,
    k: usize,
    q: &'b mut RingProducer<T, N, M>,
    open: &'b mut Ring<T, N, M>,
    i: usize,
    slot: Result<&'b Buffer<T, M>, CustomError>,
    cursor: usize,
    at: u64,
    c: &RingConsumer,
    own: usize,
    g: &ReadGuard<'a>,
    seq: u64,
)
    requires
        call_ensures(RingProducer::<T, N, M>::ring, (p,), ring),
        call_ensures(RingProducer::<T, N, M>::pending, (p,), k),
        call_ensures(RingProducer::<T, N, M>::ring_mut, (q,), open),
        ring.wf(),
        call_ensures(Ring::<T, N, M>::slot, (ring, i), slot),
        cursor < ring@.cursors.len(),
        call_ensures(Ring::<T, N, M>::position, (ring, cursor), at),
        call_ensures(RingConsumer::cursor, (c,), own),
        call_ensures(ReadGuard::<'a>::seq, (g,), seq),
    ensures
        ring@ == p@.ring,
        k == p@.fill,
        old(open)@ == old(q)@.ring,
        final(q)@.ring == final(open)@,
        final(q)@.consumers == old(q)@.consumers,
        final(q)@.blocking == old(q)@.blocking,
        final(q)@.fill == old(q)@.fill,
        i < N ==> slot is Ok && slot->Ok_0@ == ring@.slots[i as int],
        i >= N ==> slot is Err && slot->Err_0 == CustomError::InvalidIndex,
        at == ring@.cursors[cursor as int],
        own == c@,
        seq == g@.1,
{
}

/// Whatever others do meanwhile, a read that succeeds has copied one whole block as it was
/// published, no older than the cursor, and has moved the cursor past it. It succeeds at
/// the cursor as long as the producer is not a lap ahead; it finds nothing only where
/// there was nothing; and it gives up only behind a producer that has published half a
/// ring and more in each of four tries.
pub proof fn a_read_amid_others_is_whole<
    T: Copy + Default,
    F: Fn(usize, usize) -> Vec<Act<T>>,
    const N: usize,
    const M: usize,
>(
    c: &RingConsumer,
    ring: &mut Ring<T, N, M>,
    buf: &mut [T],
    others: F,
    r: Result<(), CustomError>,
)
    requires
        N >= 2,
        old(ring).wf(),
        c@ < old(ring)@.cursors.len(),
        call_ensures(RingConsumer::read_amid::<T, F, N, M>, (c, ring, buf, &others), r),
    ensures
        ({
            let a = old(ring)@;
            let b = final(ring)@;
            let me = c@ as int;
            &&& r is Ok ==> exists|seq: int|
                {
                    &&& a.cursors[me] <= seq < b.head
                    &&& final(buf)@ == #[trigger] b.published[seq]
                    &&& b.cursors[me] == seq + 1
                }
            &&& old(buf)@.len() != M <==> r == Err::<(), CustomError>(
                CustomError::MismatchInputLength,
            )
            &&& old(buf)@.len() == M ==> (a.cursors[me] >= a.head <==> r == Err::<(), CustomError>(
                CustomError::SlowProducer,
            ))
            &&& old(buf)@.len() == M && a.cursors[me] < a.head && b.head - a.cursors[me] < N ==> r
                is Ok && b.cursors[me] == a.cursors[me] + 1
            &&& r == Err::<(), CustomError>(CustomError::SlowConsumer) ==> b.head - a.head >= 1 + 3
                * (N - N / 2)
        }),
{
}

} // verus!
