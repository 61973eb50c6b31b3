//! What holds of the ring as a whole.

use vstd::prelude::*;

use crate::exceptions::CustomError;
use crate::spmc::model::{lemma_slots_differ, ProducerView, Registration, RingView};
use crate::spmc::reader_action;

verus! {

/// A consumer at `c` and a producer at `h` are in the same slot iff the distance
/// between them is a whole number of laps.
pub proof fn collision(c: int, h: int, n: int)
    requires
        0 <= c <= h,
        n > 0,
    ensures
        c % n == h % n <==> (h - c) % n == 0,
{
    vstd::arithmetic::div_mod::lemma_mod_equivalence(h, c, n);
}

/// A lag of less than a lap proves that the producer is not in the consumer's
/// slot.
pub proof fn clear_of_the_producer<T>(ring: RingView<T>, c: nat)
    requires
        ring.clear(c),
    ensures
        ring.index(c) != ring.index(ring.head),
{
    lemma_slots_differ(c as int, ring.head as int, ring.slots.len() as int);
}

/// One step of any participant: the producer stores one element of the open
/// slot or publishes it, or a consumer moves its cursor.
pub open spec fn step<T>(a: RingView<T>, b: RingView<T>) -> bool {
    ||| exists|i: int, x: T| b == #[trigger] a.put(i, x)
    ||| b == a.publish()
    ||| exists|c: int, s: nat| b == #[trigger] a.store(c, s)
}

/// A run of steps, one state after the other.
pub open spec fn is_trace<T>(trace: Seq<RingView<T>>) -> bool {
    &&& trace.len() > 0
    &&& forall|t: int| 0 <= t < trace.len() - 1 ==> step(#[trigger] trace[t], trace[t + 1])
}

/// The head never moves back, nothing published is taken back, and the number
/// of slots stays what it is.
proof fn lemma_trace_grows<T>(trace: Seq<RingView<T>>, t: int, u: int)
    requires
        is_trace(trace),
        0 <= t <= u < trace.len(),
        trace[t].published.len() == trace[t].head,
        trace[t].slots.len() > 0,
    ensures
        trace[t].head <= trace[u].head,
        trace[u].published.len() == trace[u].head,
        trace[t].slots.len() == trace[u].slots.len(),
        forall|s: int|
            0 <= s < trace[t].head ==> #[trigger] trace[u].published[s] == trace[t].published[s],
    decreases u - t,
{
    if t < u {
        lemma_trace_grows(trace, t, u - 1);
        let last = trace[u - 1];
        vstd::arithmetic::div_mod::lemma_mod_bound(last.head as int, last.slots.len() as int);
        assert(step(trace[u - 1], trace[u - 1 + 1]));
    }
}

/// While the producer has not come a lap further, the slot is left alone.
proof fn lemma_slot_is_left_alone<T>(trace: Seq<RingView<T>>, seq: nat, u: int)
    requires
        is_trace(trace),
        0 <= u < trace.len(),
        trace[0].published.len() == trace[0].head,
        trace[0].clear(seq),
        trace[u].clear(seq),
    ensures
        trace[u].block(seq) == trace[0].block(seq),
    decreases u,
{
    if u > 0 {
        lemma_trace_grows(trace, 0, u - 1);
        lemma_trace_grows(trace, u - 1, u);
        lemma_slot_is_left_alone(trace, seq, u - 1);
        assert(step(trace[u - 1], trace[u - 1 + 1]));
        clear_of_the_producer(trace[u - 1], seq);
    }
}

/// A copy that passes both checks is not torn, whatever the producer and the
/// other consumers did in between: if the claim was made in the first state of
/// a run, each element was read in some state of it, and the post-check passed
/// in the last, then the copy is the block that was published under the claimed
/// sequence number.
pub proof fn no_tearing<T>(
    trace: Seq<RingView<T>>,
    n: nat,
    m: nat,
    c: int,
    seq: nat,
    copy: Seq<T>,
    at: Seq<int>,
)
    requires
        is_trace(trace),
        trace[0].wf(n, m),
        n >= 2,
        trace[0].claim(c) == Some(seq),
        copy.len() == m,
        at.len() == m,
        forall|i: int| 0 <= i < m ==> 0 <= #[trigger] at[i] < trace.len(),
        forall|i: int| 0 <= i < m ==> #[trigger] copy[i] == trace[at[i]].block(seq)[i],
        trace.last().head - seq < n,
    ensures
        copy == trace[0].published[seq as int],
{
    assert(trace[0].clear(seq));
    let block = trace[0].block(seq);
    assert(block == trace[0].published[seq as int]);
    lemma_trace_grows(trace, 0, trace.len() - 1);
    assert forall|i: int| 0 <= i < m implies #[trigger] copy[i] == block[i] by {
        let u = at[i];
        lemma_trace_grows(trace, 0, u);
        lemma_trace_grows(trace, u, trace.len() - 1);
        lemma_slot_is_left_alone(trace, seq, u);
    }
    vstd::arithmetic::div_mod::lemma_mod_bound(seq as int, n as int);
    assert(copy =~= block);
}

/// What a claim hands out is intact at that moment: it was published, the
/// producer stands clear of it, and its slot still holds it.
pub proof fn claimed_block_is_intact<T>(ring: RingView<T>, n: nat, m: nat, c: int)
    requires
        ring.wf(n, m),
        n >= 2,
    ensures
        ring.claim(c) is None <==> ring.cursors[c] >= ring.head,
        ring.claim(c) matches Some(seq) ==> ring.clear(seq) && ring.block(seq)
            == ring.published[seq as int] && seq >= ring.cursors[c],
{
    if let Some(seq) = ring.claim(c) {
        assert(ring.clear(seq));
        assert(ring.block(seq) == ring.published[seq as int]);
    }
}

/// A failed post-check does not loop: the cursor was left where it was, so the
/// consumer counts as lapped and its next claim lands on an intact block.
pub proof fn torn_copy_resyncs<T>(ring: RingView<T>, n: nat, m: nat, c: int, seq: nat)
    requires
        ring.wf(n, m),
        n >= 2,
        ring.cursors[c] == seq,
        ring.head - seq >= n,
    ensures
        ring.claim(c) == Some((ring.head - n / 2) as nat),
        ring.clear((ring.head - n / 2) as nat),
{
}

/// A lapped consumer lands in the middle of the ring: half a ring of backlog is
/// left to read, and it is lapped again only after the producer has published
/// the other half.
pub proof fn lapped_consumer_lands_in_the_middle<T>(ring: RingView<T>, n: nat, c: int, k: nat)
    requires
        ring.slots.len() == n,
        n >= 2,
        0 <= c < ring.cursors.len(),
        ring.cursors[c] < ring.head,
        ring.lag(c) >= n,
    ensures
        ring.claimed(c).lag(c) == n / 2,
        (ring.head + k) - ring.claimed(c).cursors[c] >= n <==> k >= n - n / 2,
{
}

/// Jumping to the newest block and reading gives the newest block.
pub proof fn seek_latest_reads_the_newest<T>(ring: RingView<T>, n: nat, m: nat, c: int)
    requires
        ring.wf(n, m),
        n >= 2,
        0 <= c < ring.cursors.len(),
        ring.head > 0,
    ensures
        ring.seek_latest(c).claim(c) == Some((ring.head - 1) as nat),
        ring.seek_latest(c).block((ring.head - 1) as nat) == ring.published.last(),
        ring.seek_latest(c).read(c).claim(c) is None,
{
    let latest = (ring.head - 1) as nat;
    assert(ring.clear(latest));
    assert(ring.block(latest) == ring.published[latest as int]);
}

/// Every consumer sees every block: one consumer's reading or seeking changes
/// nothing for another.
pub proof fn consumers_are_independent<T>(ring: RingView<T>, c: int, d: int)
    requires
        c != d,
        0 <= c < ring.cursors.len(),
        0 <= d < ring.cursors.len(),
    ensures
        ring.read(c).claim(d) == ring.claim(d),
        ring.claimed(c).claim(d) == ring.claim(d),
        ring.seek_latest(c).claim(d) == ring.claim(d),
        forall|s: nat| #[trigger] ring.read(c).block(s) == ring.block(s),
{
}

/// The blocks consumer `c` gets by reading until the ring is empty, the
/// producer standing still.
pub open spec fn drain<T>(ring: RingView<T>, c: int) -> Seq<Seq<T>>
    decreases ring.head - ring.cursors[c],
    when 0 <= c < ring.cursors.len() && ring.slots.len() >= 2
{
    match ring.claim(c) {
        None => Seq::empty(),
        Some(seq) => seq![ring.block(seq)] + drain(ring.read(c), c),
    }
}

/// What survives is contiguous and correct: draining yields every block from the
/// one claimed first up to the newest, in order.
pub proof fn drain_is_contiguous<T>(ring: RingView<T>, n: nat, m: nat, c: int)
    requires
        ring.wf(n, m),
        n >= 2,
        0 <= c < ring.cursors.len(),
    ensures
        drain(ring, c) == match ring.claim(c) {
            None => Seq::<Seq<T>>::empty(),
            Some(seq) => ring.published.subrange(seq as int, ring.head as int),
        },
    decreases ring.head - ring.cursors[c],
{
    if let Some(seq) = ring.claim(c) {
        claimed_block_is_intact(ring, n, m, c);
        let next = ring.read(c);
        ring.lemma_store(n, m, c, seq + 1);
        drain_is_contiguous(next, n, m, c);
        let rest = drain(next, c);
        assert(rest =~= ring.published.subrange(seq as int + 1, ring.head as int));
        assert(seq![ring.block(seq)] + rest =~= ring.published.subrange(
            seq as int,
            ring.head as int,
        ));
    }
}

/// A producer that does not block never refuses, and its ring takes every block
/// and every element.
pub proof fn non_blocking_never_refuses<T>(p: ProducerView<T>, block: Seq<T>, x: T, m: nat)
    requires
        !p.blocking,
        block.len() == m,
        p.fill < m,
    ensures
        p.write(block, m).1 == Ok::<(), CustomError>(()),
        p.write(block, m).0.ring == p.ring.write(block),
        p.push(x, m).1 is Ok,
{
}

/// The producer never moves a consumer's cursor.
pub proof fn producer_leaves_cursors_alone<T>(p: ProducerView<T>, block: Seq<T>, x: T, m: nat)
    ensures
        p.write(block, m).0.ring.cursors == p.ring.cursors,
        p.push(x, m).0.ring.cursors == p.ring.cursors,
{
}

/// A refusal leaves the ring and the open block as they were.
pub proof fn refusal_changes_nothing<T>(p: ProducerView<T>, block: Seq<T>, x: T, m: nat)
    ensures
        p.write(block, m).1 is Err ==> p.write(block, m).0 == p.reap(),
        p.push(x, m).1 is Err ==> p.push(x, m).0.ring == p.ring && p.push(x, m).0.fill == p.fill,
{
}

/// Once the first element of a block is in, the block is never refused.
pub proof fn open_block_is_never_refused<T>(p: ProducerView<T>, x: T, m: nat)
    requires
        0 < p.fill < m,
    ensures
        p.push(x, m).1 is Ok,
{
}

/// A block that is still filling is invisible: it can be claimed by nobody, and
/// what could be claimed before can be claimed still.
pub proof fn open_block_is_invisible<T>(p: ProducerView<T>, x: T, m: nat, c: int)
    requires
        p.push(x, m).1 == Ok::<bool, CustomError>(false),
        p.ring.slots.len() > 0,
    ensures
        p.push(x, m).0.ring.head == p.ring.head,
        p.push(x, m).0.ring.published == p.ring.published,
        p.push(x, m).0.ring.claim(c) == p.ring.claim(c),
{
    vstd::arithmetic::div_mod::lemma_mod_bound(p.ring.head as int, p.ring.slots.len() as int);
}

/// The state after pushing `xs` one by one.
pub open spec fn push_all<T>(p: ProducerView<T>, xs: Seq<T>, m: nat) -> ProducerView<T>
    decreases xs.len(),
{
    if xs.len() == 0 {
        p
    } else {
        push_all(p, xs.drop_last(), m).push(xs.last(), m).0
    }
}

/// Part way through a block the open slot holds what has been pushed, followed
/// by what was there before.
proof fn lemma_push_part<T>(p: ProducerView<T>, xs: Seq<T>, n: nat, m: nat)
    requires
        p.wf(n, m),
        p.fill == 0,
        !p.refuses(),
        0 < xs.len() < m,
    ensures
        push_all(p, xs, m) == (ProducerView {
            ring: p.ring.fill(xs + p.ring.block(p.ring.head).skip(xs.len() as int)),
            fill: xs.len(),
            ..p.reap()
        }),
    decreases xs.len(),
{
    let before = p.ring.block(p.ring.head);
    vstd::arithmetic::div_mod::lemma_mod_bound(p.ring.head as int, n as int);
    assert(before.len() == m);
    let ys = xs.drop_last();
    if ys.len() > 0 {
        lemma_push_part(p, ys, n, m);
        let part = ys + before.skip(ys.len() as int);
        assert(part.update(ys.len() as int, xs.last()) =~= xs + before.skip(xs.len() as int));
        assert(push_all(p, xs, m) =~= ProducerView {
            ring: p.ring.fill(xs + before.skip(xs.len() as int)),
            fill: xs.len(),
            ..p.reap()
        }) by {
            assert(p.ring.fill(part).slots.update(
                p.ring.index(p.ring.head),
                xs + before.skip(xs.len() as int),
            ) =~= p.ring.slots.update(
                p.ring.index(p.ring.head),
                xs + before.skip(xs.len() as int),
            ));
        }
    } else {
        assert(push_all(p, ys, m) == p);
        assert(before.update(0, xs.last()) =~= xs + before.skip(1));
    }
}

/// Pushing a block's elements one by one is writing the block: same state of
/// the ring, same consumers, nothing left open. Only the last push says that a
/// block was published. A ring of empty blocks has no elements to push.
pub proof fn pushing_is_writing<T>(p: ProducerView<T>, block: Seq<T>, n: nat, m: nat)
    requires
        p.wf(n, m),
        p.fill == 0,
        !p.refuses(),
        m > 0,
        block.len() == m,
    ensures
        push_all(p, block, m) == p.write(block, m).0,
        push_all(p, block, m).fill == 0,
        forall|k: int|
            0 <= k < m ==> (#[trigger] push_all(p, block.take(k), m)).push(block[k], m).1 == Ok::<
                bool,
                CustomError,
            >(k + 1 == m),
{
    let before = p.ring.block(p.ring.head);
    vstd::arithmetic::div_mod::lemma_mod_bound(p.ring.head as int, n as int);
    assert(before.len() == m);
    let ys = block.drop_last();
    let i = p.ring.index(p.ring.head);
    if ys.len() > 0 {
        lemma_push_part(p, ys, n, m);
        let part = ys + before.skip(ys.len() as int);
        assert(part.update(ys.len() as int, block.last()) =~= block);
        assert(p.ring.slots.update(i, part).update(i, block) =~= p.ring.slots.update(i, block));
        assert(push_all(p, block, m) =~= p.write(block, m).0);
    } else {
        assert(push_all(p, ys, m) == p);
        assert(before.update(0, block.last()) =~= block);
        assert(push_all(p, block, m) =~= p.write(block, m).0);
    }
    assert forall|k: int| 0 <= k < m implies (#[trigger] push_all(p, block.take(k), m)).push(
        block[k],
        m,
    ).1 == Ok::<bool, CustomError>(k + 1 == m) by {
        if k > 0 {
            lemma_push_part(p, block.take(k), n, m);
        } else {
            assert(push_all(p, block.take(0), m) == p);
        }
    }
}

/// Two producers at the same head, of which neither blocks, agree on it and on
/// the block they publish, whether it is pushed on the one or written on the
/// other, and whatever else their rings hold.
pub proof fn pushes_and_writes_agree<T>(
    a: ProducerView<T>,
    b: ProducerView<T>,
    block: Seq<T>,
    n: nat,
    m: nat,
)
    requires
        a.wf(n, m),
        b.wf(n, m),
        a.ring.head == b.ring.head,
        a.fill == 0,
        b.fill == 0,
        !a.blocking,
        !b.blocking,
        m > 0,
        block.len() == m,
    ensures
        push_all(a, block, m).ring.head == b.write(block, m).0.ring.head,
        push_all(a, block, m).ring.block(a.ring.head) == block,
        b.write(block, m).0.ring.block(b.ring.head) == block,
        push_all(a, block, m).ring.published.last() == block,
        b.write(block, m).0.ring.published.last() == block,
{
    pushing_is_writing(a, block, n, m);
    vstd::arithmetic::div_mod::lemma_mod_bound(a.ring.head as int, n as int);
}

/// No registered consumer is a whole lap behind, nor would be once the block
/// under construction is published.
pub open spec fn guarded<T>(p: ProducerView<T>) -> bool {
    forall|i: int|
        0 <= i < p.consumers.len() ==> p.ring.lag((#[trigger] p.consumers[i]).cursor as int)
            + if p.fill > 0 {
            2nat
        } else {
            1nat
        } <= p.ring.slots.len()
}

/// The consumer behind cursor `c` is registered and running.
pub open spec fn registered<T>(p: ProducerView<T>, c: int) -> bool {
    exists|i: int|
        0 <= i < p.consumers.len() && (#[trigger] p.consumers[i]).cursor == c
            && !p.consumers[i].finished
}

/// Reaping only takes away.
proof fn lemma_reap<T>(p: ProducerView<T>, n: nat, m: nat)
    requires
        p.wf(n, m),
    ensures
        p.reap().wf(n, m),
        guarded(p) ==> guarded(p.reap()),
        forall|c: int| registered(p, c) ==> registered(p.reap(), c),
{
    let keep = |r: Registration| !r.finished;
    let kept = p.consumers.filter(keep);
    assert forall|i: int| 0 <= i < kept.len() implies p.consumers.contains(
        #[trigger] kept[i],
    ) by {
        assert(kept.contains(kept[i]));
        p.consumers.lemma_filter_contains_rev(keep, kept[i]);
    }
    assert forall|i: int| 0 <= i < kept.len() implies (#[trigger] kept[i]).cursor
        < p.ring.cursors.len() by {
        assert(p.consumers.contains(kept[i]));
    }
    if guarded(p) {
        assert forall|i: int| 0 <= i < kept.len() implies p.ring.lag(
            (#[trigger] kept[i]).cursor as int,
        ) + if p.fill > 0 {
            2nat
        } else {
            1nat
        } <= p.ring.slots.len() by {
            assert(p.consumers.contains(kept[i]));
        }
    }
    assert forall|c: int| registered(p, c) implies registered(p.reap(), c) by {
        let i = choose|i: int|
            0 <= i < p.consumers.len() && (#[trigger] p.consumers[i]).cursor == c
                && !p.consumers[i].finished;
        p.consumers.lemma_filter_contains(keep, i);
        let j = choose|j: int| 0 <= j < kept.len() && kept[j] == p.consumers[i];
        assert(p.reap().consumers[j].cursor == c);
    }
}

/// Writing and pushing keep the producer well formed.
proof fn lemma_producer_wf<T>(p: ProducerView<T>, block: Seq<T>, x: T, n: nat, m: nat)
    requires
        p.wf(n, m),
    ensures
        p.write(block, m).0.wf(n, m),
        p.push(x, m).0.wf(n, m),
{
    lemma_reap(p, n, m);
    vstd::arithmetic::div_mod::lemma_mod_bound(p.ring.head as int, n as int);
    if block.len() == m {
        p.ring.lemma_fill(n, m, block);
        p.ring.fill(block).lemma_publish(n, m);
    }
    if p.fill < m {
        let slot = p.ring.block(p.ring.head).update(p.fill as int, x);
        p.ring.lemma_fill(n, m, slot);
        p.ring.fill(slot).lemma_publish(n, m);
    }
}

/// A blocking producer never laps a registered consumer: neither a write nor a
/// push takes the guard slot.
pub proof fn blocking_producer_keeps_the_guard<T>(
    p: ProducerView<T>,
    block: Seq<T>,
    x: T,
    n: nat,
    m: nat,
)
    requires
        p.wf(n, m),
        p.blocking,
        guarded(p),
    ensures
        p.fill == 0 ==> guarded(p.write(block, m).0),
        guarded(p.push(x, m).0),
{
    lemma_reap(p, n, m);
    let q = p.reap();
    vstd::arithmetic::div_mod::lemma_mod_bound(p.ring.head as int, n as int);
    assert(!q.gated() ==> forall|i: int|
        0 <= i < q.consumers.len() ==> q.ring.lag((#[trigger] q.consumers[i]).cursor as int) + 2
            <= n);
}

/// A consumer that moves forward keeps the guard. Reading, claiming and
/// releasing a held slot all move forward.
pub proof fn moving_forward_keeps_the_guard<T>(
    p: ProducerView<T>,
    n: nat,
    m: nat,
    c: int,
    seq: nat,
)
    requires
        p.wf(n, m),
        guarded(p),
        0 <= c < p.ring.cursors.len(),
        seq >= p.ring.cursors[c],
    ensures
        guarded(ProducerView { ring: p.ring.store(c, seq), ..p }),
{
    let q = ProducerView { ring: p.ring.store(c, seq), ..p };
    assert forall|i: int| 0 <= i < q.consumers.len() implies q.ring.lag(
        (#[trigger] q.consumers[i]).cursor as int,
    ) + if q.fill > 0 {
        2nat
    } else {
        1nat
    } <= q.ring.slots.len() by {
        assert(p.consumers[i] == q.consumers[i]);
    }
}

/// Jumping to the newest block keeps the guard, unless the ring has two slots
/// and a block is under construction: there the newest block is the guard slot.
pub proof fn seeking_keeps_the_guard<T>(p: ProducerView<T>, n: nat, m: nat, c: int)
    requires
        p.wf(n, m),
        n >= 2,
        guarded(p),
        0 <= c < p.ring.cursors.len(),
        p.fill == 0 || n > 2,
    ensures
        guarded(ProducerView { ring: p.ring.seek_latest(c), ..p }),
{
    let q = ProducerView { ring: p.ring.seek_latest(c), ..p };
    assert forall|i: int| 0 <= i < q.consumers.len() implies q.ring.lag(
        (#[trigger] q.consumers[i]).cursor as int,
    ) + if q.fill > 0 {
        2nat
    } else {
        1nat
    } <= q.ring.slots.len() by {
        assert(p.consumers[i] == q.consumers[i]);
    }
}

/// Under the guard a registered consumer is never resynced: it reads exactly the
/// block at its cursor, and that block is intact.
pub proof fn guarded_consumer_is_never_resynced<T>(p: ProducerView<T>, n: nat, m: nat, c: int)
    requires
        p.wf(n, m),
        n >= 2,
        guarded(p),
        registered(p, c),
        p.ring.cursors[c] < p.ring.head,
    ensures
        p.ring.claim(c) == Some(p.ring.cursors[c]),
        p.ring.block(p.ring.cursors[c]) == p.ring.published[p.ring.cursors[c] as int],
{
    claimed_block_is_intact(p.ring, n, m, c);
}

/// A held slot stays valid under a blocking producer: with the cursor of a
/// registered consumer pinned, neither a write nor a push comes into its slot.
pub proof fn held_slot_stays_valid<T>(
    p: ProducerView<T>,
    block: Seq<T>,
    x: T,
    n: nat,
    m: nat,
    c: int,
)
    requires
        p.wf(n, m),
        p.blocking,
        guarded(p),
        registered(p, c),
    ensures
        p.fill == 0 ==> p.write(block, m).0.ring.head - p.ring.cursors[c] < n,
        p.push(x, m).0.ring.head - p.ring.cursors[c] < n,
{
    lemma_reap(p, n, m);
    blocking_producer_keeps_the_guard(p, block, x, n, m);
    let i = choose|i: int|
        0 <= i < p.reap().consumers.len() && (#[trigger] p.reap().consumers[i]).cursor == c;
    assert(p.consumers.len() > 0);
    let j = choose|j: int|
        0 <= j < p.consumers.len() && (#[trigger] p.consumers[j]).cursor == c;
    assert(p.write(block, m).0.consumers[i].cursor == c);
    if p.fill > 0 {
        assert(p.push(x, m).0.consumers[j].cursor == c);
    } else {
        assert(p.push(x, m).0.consumers[i].cursor == c);
    }
}

/// Draining one slot releases exactly one write: when the only consumer has the
/// producer blocked, one read lets the next block in, after which the producer
/// is blocked again.
pub proof fn one_read_buys_one_write<T>(p: ProducerView<T>, block: Seq<T>, n: nat, m: nat)
    requires
        p.wf(n, m),
        n >= 2,
        p.blocking,
        guarded(p),
        p.fill == 0,
        p.consumers.len() == 1,
        !p.consumers[0].finished,
        p.refuses(),
        block.len() == m,
    ensures
        ({
            let c = p.consumers[0].cursor as int;
            let q = ProducerView { ring: p.ring.read(c), ..p };
            &&& p.ring.claim(c) == Some(p.ring.cursors[c])
            &&& q.write(block, m).1 == Ok::<(), CustomError>(())
            &&& q.write(block, m).0.refuses()
        }),
{
    let keep = |r: Registration| !r.finished;
    let only = p.consumers[0];
    assert(p.consumers =~= seq![only]);
    reveal(Seq::filter);
    assert(seq![only].drop_last() =~= Seq::<Registration>::empty());
    assert(p.consumers.filter(keep) =~= p.consumers) by {
        assert(Seq::<Registration>::empty().filter(keep) =~= Seq::<Registration>::empty());
        assert(seq![only].last() == only);
    }
    let c = only.cursor as int;
    assert(p.reap().gated());
    assert(p.ring.lag(c) == n - 1);
    let q = ProducerView { ring: p.ring.read(c), ..p };
    assert(q.ring.lag(c) == n - 2);
    assert(!q.reap().gated());
    let w = q.write(block, m).0;
    assert(w.consumers == p.consumers);
    assert(w.ring.lag(w.reap().consumers[0].cursor as int) == n - 1);
    assert(w.reap().gated());
}

/// Something the producer or a consumer does.
pub enum Event<T> {
    Write(Seq<T>),
    Push(T),
    Read(int),
}

/// The state after one event.
pub open spec fn after<T>(p: ProducerView<T>, e: Event<T>, m: nat) -> ProducerView<T> {
    match e {
        Event::Write(block) => p.write(block, m).0,
        Event::Push(x) => p.push(x, m).0,
        Event::Read(c) => ProducerView { ring: p.ring.read(c), ..p },
    }
}

/// The event is one the ring admits: no whole block into an open one, no
/// consumer that does not exist.
pub open spec fn admits<T>(p: ProducerView<T>, e: Event<T>) -> bool {
    match e {
        Event::Write(_) => p.fill == 0,
        Event::Push(_) => true,
        Event::Read(c) => 0 <= c < p.ring.cursors.len(),
    }
}

/// The state after a run of events.
pub open spec fn run<T>(p: ProducerView<T>, events: Seq<Event<T>>, m: nat) -> ProducerView<T>
    decreases events.len(),
{
    if events.len() == 0 {
        p
    } else {
        after(run(p, events.drop_last(), m), events.last(), m)
    }
}

/// Every event of the run is one the ring admits.
pub open spec fn admits_all<T>(p: ProducerView<T>, events: Seq<Event<T>>, m: nat) -> bool
    decreases events.len(),
{
    events.len() == 0 || (admits_all(p, events.drop_last(), m) && admits(
        run(p, events.drop_last(), m),
        events.last(),
    ))
}

/// The blocks consumer `c` gets in the course of a run.
pub open spec fn heard<T>(
    p: ProducerView<T>,
    events: Seq<Event<T>>,
    m: nat,
    c: int,
) -> Seq<Seq<T>>
    decreases events.len(),
{
    if events.len() == 0 {
        Seq::empty()
    } else {
        let q = run(p, events.drop_last(), m);
        let so_far = heard(p, events.drop_last(), m, c);
        match events.last() {
            Event::Read(d) => match q.ring.claim(c) {
                Some(seq) => if c == d {
                    so_far.push(q.ring.block(seq))
                } else {
                    so_far
                },
                None => so_far,
            },
            _ => so_far,
        }
    }
}

/// Blocking mode loses nothing: whatever the order of writes, pushes and reads,
/// a registered consumer gets every published block from its cursor on, without
/// gaps and in order.
pub proof fn blocking_loses_nothing<T>(
    p: ProducerView<T>,
    events: Seq<Event<T>>,
    n: nat,
    m: nat,
    c: int,
)
    requires
        p.wf(n, m),
        n >= 2,
        p.blocking,
        guarded(p),
        registered(p, c),
        p.ring.cursors[c] <= p.ring.head,
        admits_all(p, events, m),
    ensures
        ({
            let q = run(p, events, m);
            &&& q.wf(n, m)
            &&& q.blocking
            &&& guarded(q)
            &&& registered(q, c)
            &&& p.ring.cursors[c] <= q.ring.cursors[c] <= q.ring.head
            &&& heard(p, events, m, c) == q.ring.published.subrange(
                p.ring.cursors[c] as int,
                q.ring.cursors[c] as int,
            )
        }),
    decreases events.len(),
{
    if events.len() == 0 {
        assert(heard(p, events, m, c) =~= p.ring.published.subrange(
            p.ring.cursors[c] as int,
            p.ring.cursors[c] as int,
        ));
    } else {
        let most = events.drop_last();
        let q = run(p, most, m);
        blocking_loses_nothing(p, most, n, m, c);
        let from = p.ring.cursors[c] as int;
        let to = q.ring.cursors[c] as int;
        let last = events.last();
        let r = after(q, last, m);
        lemma_reap(q, n, m);
        match last {
            Event::Write(block) => {
                lemma_producer_wf(q, block, arbitrary(), n, m);
                blocking_producer_keeps_the_guard(q, block, arbitrary(), n, m);
                lemma_still_registered(q, r, c);
                assert(r.ring.published.subrange(from, to) =~= q.ring.published.subrange(
                    from,
                    to,
                ));
            },
            Event::Push(x) => {
                lemma_producer_wf(q, Seq::empty(), x, n, m);
                blocking_producer_keeps_the_guard(q, Seq::empty(), x, n, m);
                lemma_still_registered(q, r, c);
                assert(r.ring.published.subrange(from, to) =~= q.ring.published.subrange(
                    from,
                    to,
                ));
            },
            Event::Read(d) => {
                claimed_block_is_intact(q.ring, n, m, d);
                if let Some(seq) = q.ring.claim(d) {
                    q.ring.lemma_store(n, m, d, seq + 1);
                    moving_forward_keeps_the_guard(q, n, m, d, seq + 1);
                }
                lemma_still_registered(q, r, c);
                if c == d && q.ring.claim(c) is Some {
                    guarded_consumer_is_never_resynced(q, n, m, c);
                    assert(r.ring.published.subrange(from, to + 1) =~= q.ring.published.subrange(
                        from,
                        to,
                    ).push(q.ring.published[to]));
                }
            },
        }
    }
}

/// The same running consumers, or those left of them after reaping.
proof fn lemma_still_registered<T>(q: ProducerView<T>, r: ProducerView<T>, c: int)
    requires
        registered(q, c),
        registered(q.reap(), c),
        r.consumers == q.consumers || r.consumers == q.reap().consumers,
    ensures
        registered(r, c),
{
    if r.consumers == q.consumers {
        let i = choose|i: int|
            0 <= i < q.consumers.len() && (#[trigger] q.consumers[i]).cursor == c
                && !q.consumers[i].finished;
        assert(r.consumers[i].cursor == c);
    } else {
        let i = choose|i: int|
            0 <= i < q.reap().consumers.len() && (#[trigger] q.reap().consumers[i]).cursor == c
                && !q.reap().consumers[i].finished;
        assert(r.consumers[i].cursor == c);
    }
}

/// A reading loop without a timeout never ends by itself; one with a timeout
/// ends exactly when a read fails right after it has parked.
pub proof fn reader_stops_only_after_parking(s: (Option<u64>, bool), got: bool)
    ensures
        reader_action(s, got) is Stop <==> s.1 && !got,
        s.0 is None && !s.1 ==> !(reader_action(s, got) is Stop) && !(reader_action(
            s,
            got,
        ) is Park),
{
}

} // verus!
