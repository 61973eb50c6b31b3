//! From the bytes of a USB transfer to its samples: centred, without the energy
//! leaked at the centre, and shifted to where the station is.

use vstd::prelude::*;

use crate::dsp::stages::{
    blocked, blocker_sees_one_stream, lemma_since, translated, translator_sees_one_stream, turned,
    IqDcBlocker, Xlator, CORRECTION,
};
use crate::flow::{Transfer, PAIRS};

verus! {

/// The arithmetic on samples `S` and points `C` of the plane.
pub struct Front<B, L, G, J, M, U, A> {
    /// A byte as a sample, centred.
    pub center: B,
    /// One sample less another.
    pub less: L,
    /// An offset and what a sample adds to it.
    pub integrate: G,
    /// A pair as a point.
    pub join: J,
    /// The product of two points.
    pub times: M,
    /// A point brought back to the circle.
    pub correct: U,
    /// A point as a pair.
    pub part: A,
}

/// What becomes of a transfer on its way: one entry for each pair, and of what is
/// carried from pair to pair one more.
pub struct Passage<S, C> {
    /// The centred samples.
    pub i: Seq<S>,
    pub q: Seq<S>,
    /// The offsets of the blockers.
    pub offsets_i: Seq<S>,
    pub offsets_q: Seq<S>,
    /// The samples without their offsets.
    pub blocked_i: Seq<S>,
    pub blocked_q: Seq<S>,
    /// The points.
    pub x: Seq<C>,
    /// The phases of the translator.
    pub phases: Seq<C>,
    /// The points, translated.
    pub y: Seq<C>,
}

impl<B, L, G, J, M, U, A> Front<B, L, G, J, M, U, A> {
    /// Every step can be taken on every value.
    pub open spec fn total<S, C>(self) -> bool where
        B: Fn(u8) -> S,
        L: Fn(S, S) -> S,
        G: Fn(S, S) -> S,
        J: Fn(S, S) -> C,
        M: Fn(C, C) -> C,
        U: Fn(C) -> C,
        A: Fn(C) -> (S, S),
     {
        &&& forall|b: u8| #[trigger] call_requires(self.center, (b,))
        &&& forall|a: S, b: S| #[trigger] call_requires(self.less, (a, b))
        &&& forall|a: S, b: S| #[trigger] call_requires(self.integrate, (a, b))
        &&& forall|a: S, b: S| #[trigger] call_requires(self.join, (a, b))
        &&& forall|a: C, b: C| #[trigger] call_requires(self.times, (a, b))
        &&& forall|a: C| #[trigger] call_requires(self.correct, (a,))
        &&& forall|a: C| #[trigger] call_requires(self.part, (a,))
    }

    /// The bytes may pass so: each pair is centred, blocked, joined, translated,
    /// and parted again into the samples `out_i` and `out_q`.
    pub open spec fn passes<S, C>(
        self,
        bytes: Seq<u8>,
        delta: C,
        since: int,
        p: Passage<S, C>,
        out_i: Seq<S>,
        out_q: Seq<S>,
    ) -> bool where
        B: Fn(u8) -> S,
        L: Fn(S, S) -> S,
        G: Fn(S, S) -> S,
        J: Fn(S, S) -> C,
        M: Fn(C, C) -> C,
        U: Fn(C) -> C,
        A: Fn(C) -> (S, S),
     {
        let n = bytes.len() as int / 2;
        &&& p.i.len() == n
        &&& p.q.len() == n
        &&& forall|k: int|
            0 <= k < n ==> call_ensures(self.center, (bytes[2 * k],), #[trigger] p.i[k])
        &&& forall|k: int|
            0 <= k < n ==> call_ensures(self.center, (bytes[2 * k + 1],), #[trigger] p.q[k])
        &&& blocked(self.less, self.integrate, p.offsets_i, p.i, p.blocked_i)
        &&& blocked(self.less, self.integrate, p.offsets_q, p.q, p.blocked_q)
        &&& p.x.len() == n
        &&& forall|k: int|
            0 <= k < n ==> call_ensures(
                self.join,
                (p.blocked_i[k], p.blocked_q[k]),
                #[trigger] p.x[k],
            )
        &&& translated(self.times, self.correct, delta, since, p.phases, p.x, p.y)
        &&& forall|k: int|
            0 <= k < n ==> call_ensures(self.part, (#[trigger] p.y[k],), (out_i[k], out_q[k]))
    }

    /// What the bytes may make of the blocker, the translator and the transfer:
    /// each carries on where it was, and what the bytes do not reach of the
    /// transfer is left as it was.
    pub open spec fn prepares<S: Copy, C: Copy>(
        self,
        bytes: Seq<u8>,
        before: (IqDcBlocker<S>, Xlator<C>, Transfer<S>),
        after: (IqDcBlocker<S>, Xlator<C>, Transfer<S>),
    ) -> bool where
        B: Fn(u8) -> S,
        L: Fn(S, S) -> S,
        G: Fn(S, S) -> S,
        J: Fn(S, S) -> C,
        M: Fn(C, C) -> C,
        U: Fn(C) -> C,
        A: Fn(C) -> (S, S),
     {
        let n = bytes.len() as int / 2;
        &&& after.1.wf()
        &&& after.2.wf()
        &&& after.1.delta == before.1.delta
        &&& after.1.n == (before.1.n + n) % (CORRECTION as int)
        &&& exists|p: Passage<S, C>|
            {
                &&& #[trigger] self.passes(
                    bytes,
                    before.1.delta,
                    before.1.n as int,
                    p,
                    after.2.i(),
                    after.2.q(),
                )
                &&& p.offsets_i[0] == before.0.i_blocker.offset
                &&& p.offsets_q[0] == before.0.q_blocker.offset
                &&& p.phases[0] == before.1.phase
                &&& p.offsets_i.last() == after.0.i_blocker.offset
                &&& p.offsets_q.last() == after.0.q_blocker.offset
                &&& p.phases.last() == after.1.phase
            }
        &&& forall|j: int|
            n <= j < PAIRS ==> #[trigger] after.2.i()[j] == before.2.i()[j]
        &&& forall|j: int|
            n <= j < PAIRS ==> #[trigger] after.2.q()[j] == before.2.q()[j]
    }
}

/// Fill a transfer from its bytes. Every pair goes through the stages in the same
/// order and lands in its place; what the bytes do not reach is left as it was.
pub fn prepare<S: Copy, C: Copy, B, L, G, J, M, U, A>(
    bytes: &[u8],
    blocker: &mut IqDcBlocker<S>,
    xlator: &mut Xlator<C>,
    transfer: &mut Transfer<S>,
    front: &Front<B, L, G, J, M, U, A>,
) where
    B: Fn(u8) -> S,
    L: Fn(S, S) -> S,
    G: Fn(S, S) -> S,
    J: Fn(S, S) -> C,
    M: Fn(C, C) -> C,
    U: Fn(C) -> C,
    A: Fn(C) -> (S, S),

    requires
        bytes@.len() <= 2 * PAIRS,
        old(xlator).wf(),
        old(transfer).wf(),
        front.total::<S, C>(),
    ensures
        front.prepares(
            bytes@,
            (*old(blocker), *old(xlator), *old(transfer)),
            (*final(blocker), *final(xlator), *final(transfer)),
        ),
{
    prepare_pairs(bytes, blocker, xlator, transfer, front);
}

/// Fill a transfer pair by pair.
#[verifier::rlimit(60)]
fn prepare_pairs<S: Copy, C: Copy, B, L, G, J, M, U, A>(
    bytes: &[u8],
    blocker: &mut IqDcBlocker<S>,
    xlator: &mut Xlator<C>,
    transfer: &mut Transfer<S>,
    front: &Front<B, L, G, J, M, U, A>,
) where
    B: Fn(u8) -> S,
    L: Fn(S, S) -> S,
    G: Fn(S, S) -> S,
    J: Fn(S, S) -> C,
    M: Fn(C, C) -> C,
    U: Fn(C) -> C,
    A: Fn(C) -> (S, S),

    requires
        bytes@.len() <= 2 * PAIRS,
        old(xlator).wf(),
        old(transfer).wf(),
        front.total::<S, C>(),
    ensures
        final(xlator).wf(),
        final(transfer).wf(),
        final(xlator).delta == old(xlator).delta,
        final(xlator).n == (old(xlator).n + bytes@.len() as int / 2) % (CORRECTION as int),
        exists|p: Passage<S, C>|
            {
                &&& #[trigger] front.passes(
                    bytes@,
                    old(xlator).delta,
                    old(xlator).n as int,
                    p,
                    final(transfer).i(),
                    final(transfer).q(),
                )
                &&& p.offsets_i[0] == old(blocker).i_blocker.offset
                &&& p.offsets_q[0] == old(blocker).q_blocker.offset
                &&& p.phases[0] == old(xlator).phase
                &&& p.offsets_i.last() == final(blocker).i_blocker.offset
                &&& p.offsets_q.last() == final(blocker).q_blocker.offset
                &&& p.phases.last() == final(xlator).phase
            },
        forall|j: int|
            bytes@.len() as int / 2 <= j < PAIRS ==> #[trigger] final(transfer).i()[j] == old(
                transfer,
            ).i()[j],
        forall|j: int|
            bytes@.len() as int / 2 <= j < PAIRS ==> #[trigger] final(transfer).q()[j] == old(
                transfer,
            ).q()[j],
{
    let n: usize = bytes.len() / 2;
    let ghost delta = xlator.delta;
    let ghost since = xlator.n as int;
    let ghost mut p = Passage {
        i: Seq::empty(),
        q: Seq::empty(),
        offsets_i: seq![blocker.i_blocker.offset],
        offsets_q: seq![blocker.q_blocker.offset],
        blocked_i: Seq::empty(),
        blocked_q: Seq::empty(),
        x: Seq::empty(),
        phases: seq![xlator.phase],
        y: Seq::empty(),
    };
    let mut k: usize = 0;
    assert(bytes@.take(0) =~= Seq::<u8>::empty());
    while k < n
        invariant
            k <= n,
            n == bytes@.len() / 2,
            n <= PAIRS,
            xlator.wf(),
            transfer.wf(),
            front.total::<S, C>(),
            xlator.delta == delta,
            xlator.delta == old(xlator).delta,
            since == old(xlator).n,
            xlator.n == (since + k) % (CORRECTION as int),
            front.passes(bytes@.take(2 * k), delta, since, p, transfer.i(), transfer.q()),
            p.offsets_i[0] == old(blocker).i_blocker.offset,
            p.offsets_q[0] == old(blocker).q_blocker.offset,
            p.phases[0] == old(xlator).phase,
            p.offsets_i[k as int] == blocker.i_blocker.offset,
            p.offsets_q[k as int] == blocker.q_blocker.offset,
            p.phases[k as int] == xlator.phase,
            forall|j: int| k <= j < PAIRS ==> #[trigger] transfer.i()[j] == old(transfer).i()[j],
            forall|j: int| k <= j < PAIRS ==> #[trigger] transfer.q()[j] == old(transfer).q()[j],
        decreases n - k,
    {
        let ghost before = *transfer;
        let i = (front.center)(bytes[2 * k]);
        let q = (front.center)(bytes[2 * k + 1]);
        let (bi, bq) = blocker.process(i, q, &front.less, &front.integrate);
        let x = (front.join)(bi, bq);
        let y = xlator.process_sample(x, &front.times, &front.correct);
        let (out_i, out_q) = (front.part)(y);
        transfer.set(k, out_i, out_q);
        proof {
            lemma_since(since, k as int, CORRECTION as int);
            lemma_set(before, *transfer, k as int, out_i, out_q);
            let more = Passage {
                i: p.i.push(i),
                q: p.q.push(q),
                offsets_i: p.offsets_i.push(blocker.i_blocker.offset),
                offsets_q: p.offsets_q.push(blocker.q_blocker.offset),
                blocked_i: p.blocked_i.push(bi),
                blocked_q: p.blocked_q.push(bq),
                x: p.x.push(x),
                phases: p.phases.push(xlator.phase),
                y: p.y.push(y),
            };
            lemma_one_more(
                *front,
                bytes@,
                delta,
                since,
                p,
                more,
                k as int,
                (before.i(), before.q()),
                (transfer.i(), transfer.q()),
            );
            p = more;
        }
        k += 1;
    }
    proof {
        assert(bytes@.take(2 * n).len() as int / 2 == n);
        assert(front.passes(bytes@, delta, since, p, transfer.i(), transfer.q()));
    }
}

/// A pair put in shows on both legs, and no other pair changes.
proof fn lemma_set<S: Copy>(before: Transfer<S>, after: Transfer<S>, k: int, i: S, q: S)
    requires
        before.wf(),
        after.wf(),
        0 <= k < PAIRS,
        after.interleaved() == before.interleaved().update(2 * k, i).update(2 * k + 1, q),
    ensures
        after.i() == before.i().update(k, i),
        after.q() == before.q().update(k, q),
{
    assert forall|j: int| 0 <= j < PAIRS implies after.i()[j] == before.i().update(k, i)[j] by {
        assert(after.i()[j] == after.interleaved()[2 * j]);
        assert(before.i()[j] == before.interleaved()[2 * j]);
    }
    assert forall|j: int| 0 <= j < PAIRS implies after.q()[j] == before.q().update(k, q)[j] by {
        assert(after.q()[j] == after.interleaved()[2 * j + 1]);
        assert(before.q()[j] == before.interleaved()[2 * j + 1]);
    }
    assert(after.i() =~= before.i().update(k, i));
    assert(after.q() =~= before.q().update(k, q));
}

/// One pair more on its way.
proof fn lemma_one_more<S, C, B, L, G, J, M, U, A>(
    front: Front<B, L, G, J, M, U, A>,
    bytes: Seq<u8>,
    delta: C,
    since: int,
    p: Passage<S, C>,
    more: Passage<S, C>,
    k: int,
    before: (Seq<S>, Seq<S>),
    after: (Seq<S>, Seq<S>),
) where
    B: Fn(u8) -> S,
    L: Fn(S, S) -> S,
    G: Fn(S, S) -> S,
    J: Fn(S, S) -> C,
    M: Fn(C, C) -> C,
    U: Fn(C) -> C,
    A: Fn(C) -> (S, S),

    requires
        0 <= k,
        2 * k + 1 < bytes.len(),
        front.passes(bytes.take(2 * k), delta, since, p, before.0, before.1),
        k < before.0.len(),
        k < before.1.len(),
        more.i == p.i.push(more.i.last()),
        more.q == p.q.push(more.q.last()),
        more.offsets_i == p.offsets_i.push(more.offsets_i.last()),
        more.offsets_q == p.offsets_q.push(more.offsets_q.last()),
        more.blocked_i == p.blocked_i.push(more.blocked_i.last()),
        more.blocked_q == p.blocked_q.push(more.blocked_q.last()),
        more.x == p.x.push(more.x.last()),
        more.phases == p.phases.push(more.phases.last()),
        more.y == p.y.push(more.y.last()),
        after.0 == before.0.update(k, after.0[k]),
        after.1 == before.1.update(k, after.1[k]),
        call_ensures(front.center, (bytes[2 * k],), more.i.last()),
        call_ensures(front.center, (bytes[2 * k + 1],), more.q.last()),
        call_ensures(front.less, (more.i.last(), p.offsets_i.last()), more.blocked_i.last()),
        call_ensures(front.less, (more.q.last(), p.offsets_q.last()), more.blocked_q.last()),
        call_ensures(
            front.integrate,
            (p.offsets_i.last(), more.blocked_i.last()),
            more.offsets_i.last(),
        ),
        call_ensures(
            front.integrate,
            (p.offsets_q.last(), more.blocked_q.last()),
            more.offsets_q.last(),
        ),
        call_ensures(front.join, (more.blocked_i.last(), more.blocked_q.last()), more.x.last()),
        call_ensures(front.times, (more.x.last(), p.phases.last()), more.y.last()),
        turned(
            front.times,
            front.correct,
            delta,
            since + k,
            p.phases.last(),
            more.phases.last(),
        ),
        call_ensures(front.part, (more.y.last(),), (after.0[k], after.1[k])),
    ensures
        front.passes(bytes.take(2 * (k + 1)), delta, since, more, after.0, after.1),
{
    let a = bytes.take(2 * k);
    let b = bytes.take(2 * (k + 1));
    assert(a.len() as int / 2 == k);
    assert(b.len() as int / 2 == k + 1);
    assert forall|j: int| 0 <= j < k + 1 implies call_ensures(
        front.center,
        (b[2 * j],),
        #[trigger] more.i[j],
    ) by {
        if j < k {
            assert(more.i[j] == p.i[j] && b[2 * j] == a[2 * j]);
        }
    }
    assert forall|j: int| 0 <= j < k + 1 implies call_ensures(
        front.center,
        (b[2 * j + 1],),
        #[trigger] more.q[j],
    ) by {
        if j < k {
            assert(more.q[j] == p.q[j] && b[2 * j + 1] == a[2 * j + 1]);
        }
    }
    lemma_blocked_more(
        front.less,
        front.integrate,
        (p.offsets_i, p.i, p.blocked_i),
        (more.offsets_i, more.i, more.blocked_i),
    );
    lemma_blocked_more(
        front.less,
        front.integrate,
        (p.offsets_q, p.q, p.blocked_q),
        (more.offsets_q, more.q, more.blocked_q),
    );
    assert forall|j: int| 0 <= j < k + 1 implies call_ensures(
        front.join,
        (more.blocked_i[j], more.blocked_q[j]),
        #[trigger] more.x[j],
    ) by {
        if j < k {
            assert(more.x[j] == p.x[j]);
        }
    }
    assert forall|j: int| 0 <= j < k + 1 implies call_ensures(
        front.times,
        (more.x[j], more.phases[j]),
        #[trigger] more.y[j],
    ) by {
        if j < k {
            assert(more.y[j] == p.y[j]);
        }
    }
    assert forall|j: int| 0 <= j < k + 1 implies turned(
        front.times,
        front.correct,
        delta,
        since + j,
        #[trigger] more.phases[j],
        more.phases[j + 1],
    ) by {
        if j < k {
            assert(more.phases[j] == p.phases[j]);
        }
    }
    assert forall|j: int| 0 <= j < k + 1 implies call_ensures(
        front.part,
        (#[trigger] more.y[j],),
        (after.0[j], after.1[j]),
    ) by {
        if j < k {
            assert(more.y[j] == p.y[j]);
        }
    }
}

/// One sample more through a blocker.
proof fn lemma_blocked_more<S, F: Fn(S, S) -> S, G: Fn(S, S) -> S>(
    less: F,
    integrate: G,
    a: (Seq<S>, Seq<S>, Seq<S>),
    b: (Seq<S>, Seq<S>, Seq<S>),
)
    requires
        blocked(less, integrate, a.0, a.1, a.2),
        b.0 == a.0.push(b.0.last()),
        b.1 == a.1.push(b.1.last()),
        b.2 == a.2.push(b.2.last()),
        call_ensures(less, (b.1.last(), a.0.last()), b.2.last()),
        call_ensures(integrate, (a.0.last(), b.2.last()), b.0.last()),
    ensures
        blocked(less, integrate, b.0, b.1, b.2),
{
    let k = a.1.len() as int;
    assert forall|j: int| 0 <= j < k + 1 implies call_ensures(
        less,
        (b.1[j], b.0[j]),
        #[trigger] b.2[j],
    ) by {
        if j < k {
            assert(b.2[j] == a.2[j]);
        }
    }
    assert forall|j: int| 0 <= j < k + 1 implies call_ensures(
        integrate,
        (#[trigger] b.0[j], b.2[j]),
        b.0[j + 1],
    ) by {
        if j < k {
            assert(b.0[j] == a.0[j]);
        }
    }
}

/// What becomes of two transfers, one behind the other.
pub open spec fn joined<S, C>(p: Passage<S, C>, r: Passage<S, C>) -> Passage<S, C> {
    Passage {
        i: p.i + r.i,
        q: p.q + r.q,
        offsets_i: p.offsets_i + r.offsets_i.skip(1),
        offsets_q: p.offsets_q + r.offsets_q.skip(1),
        blocked_i: p.blocked_i + r.blocked_i,
        blocked_q: p.blocked_q + r.blocked_q,
        x: p.x + r.x,
        phases: p.phases + r.phases.skip(1),
        y: p.y + r.y,
    }
}

/// The stages see one uninterrupted stream: two transfers, each where the other
/// left off, are what one of all their bytes would be.
pub proof fn front_sees_one_stream<S, C, B, L, G, J, M, U, A>(
    front: Front<B, L, G, J, M, U, A>,
    delta: C,
    since: int,
    a: Seq<u8>,
    b: Seq<u8>,
    p: Passage<S, C>,
    r: Passage<S, C>,
    out_a: (Seq<S>, Seq<S>),
    out_b: (Seq<S>, Seq<S>),
) where
    B: Fn(u8) -> S,
    L: Fn(S, S) -> S,
    G: Fn(S, S) -> S,
    J: Fn(S, S) -> C,
    M: Fn(C, C) -> C,
    U: Fn(C) -> C,
    A: Fn(C) -> (S, S),

    requires
        since >= 0,
        a.len() % 2 == 0,
        out_a.0.len() == a.len() / 2,
        out_a.1.len() == a.len() / 2,
        out_b.0.len() >= b.len() / 2,
        out_b.1.len() >= b.len() / 2,
        front.passes(a, delta, since, p, out_a.0, out_a.1),
        front.passes(
            b,
            delta,
            (since + a.len() as int / 2) % (CORRECTION as int),
            r,
            out_b.0,
            out_b.1,
        ),
        r.offsets_i[0] == p.offsets_i.last(),
        r.offsets_q[0] == p.offsets_q.last(),
        r.phases[0] == p.phases.last(),
    ensures
        front.passes(
            a + b,
            delta,
            since,
            joined(p, r),
            out_a.0 + out_b.0,
            out_a.1 + out_b.1,
        ),
{
    assert((a + b).len() as int / 2 == a.len() as int / 2 + b.len() as int / 2);
    blocker_sees_one_stream(
        front.less,
        front.integrate,
        p.offsets_i,
        r.offsets_i,
        (p.i, p.blocked_i),
        (r.i, r.blocked_i),
    );
    blocker_sees_one_stream(
        front.less,
        front.integrate,
        p.offsets_q,
        r.offsets_q,
        (p.q, p.blocked_q),
        (r.q, r.blocked_q),
    );
    translator_sees_one_stream(
        front.times,
        front.correct,
        delta,
        since,
        p.phases,
        r.phases,
        p.x,
        r.x,
        p.y,
        r.y,
    );
    lemma_centred_stream(front.center, a, b, 0, p.i, r.i);
    lemma_centred_stream(front.center, a, b, 1, p.q, r.q);
    lemma_joined_stream(
        front.join,
        (p.blocked_i, p.blocked_q, p.x),
        (r.blocked_i, r.blocked_q, r.x),
    );
    lemma_parted_stream(front.part, (p.y, out_a.0, out_a.1), (r.y, out_b.0, out_b.1));
}

/// Centring one leg of one run of bytes after the other is centring both.
proof fn lemma_centred_stream<S, B: Fn(u8) -> S>(
    center: B,
    a: Seq<u8>,
    b: Seq<u8>,
    leg: int,
    x: Seq<S>,
    y: Seq<S>,
)
    requires
        a.len() % 2 == 0,
        0 <= leg <= 1,
        x.len() == a.len() / 2,
        y.len() == b.len() / 2,
        forall|k: int|
            0 <= k < x.len() ==> call_ensures(center, (a[2 * k + leg],), #[trigger] x[k]),
        forall|k: int|
            0 <= k < y.len() ==> call_ensures(center, (b[2 * k + leg],), #[trigger] y[k]),
    ensures
        forall|k: int|
            0 <= k < x.len() + y.len() ==> call_ensures(
                center,
                ((a + b)[2 * k + leg],),
                #[trigger] (x + y)[k],
            ),
{
    let m = x.len() as int;
    assert forall|k: int| 0 <= k < x.len() + y.len() implies call_ensures(
        center,
        ((a + b)[2 * k + leg],),
        #[trigger] (x + y)[k],
    ) by {
        if k < m {
            assert((x + y)[k] == x[k] && (a + b)[2 * k + leg] == a[2 * k + leg]);
        } else {
            assert((x + y)[k] == y[k - m]);
            assert((a + b)[2 * k + leg] == b[2 * (k - m) + leg]);
        }
    }
}

/// So is joining.
proof fn lemma_joined_stream<S, C, J: Fn(S, S) -> C>(
    join: J,
    a: (Seq<S>, Seq<S>, Seq<C>),
    b: (Seq<S>, Seq<S>, Seq<C>),
)
    requires
        a.0.len() == a.2.len(),
        a.1.len() == a.2.len(),
        b.0.len() == b.2.len(),
        b.1.len() == b.2.len(),
        forall|k: int|
            0 <= k < a.2.len() ==> call_ensures(join, (a.0[k], a.1[k]), #[trigger] a.2[k]),
        forall|k: int|
            0 <= k < b.2.len() ==> call_ensures(join, (b.0[k], b.1[k]), #[trigger] b.2[k]),
    ensures
        forall|k: int|
            0 <= k < a.2.len() + b.2.len() ==> call_ensures(
                join,
                ((a.0 + b.0)[k], (a.1 + b.1)[k]),
                #[trigger] (a.2 + b.2)[k],
            ),
{
    let m = a.2.len() as int;
    assert forall|k: int| 0 <= k < a.2.len() + b.2.len() implies call_ensures(
        join,
        ((a.0 + b.0)[k], (a.1 + b.1)[k]),
        #[trigger] (a.2 + b.2)[k],
    ) by {
        if k < m {
            assert((a.2 + b.2)[k] == a.2[k]);
        } else {
            assert((a.2 + b.2)[k] == b.2[k - m]);
        }
    }
}

/// And so is parting.
proof fn lemma_parted_stream<S, C, A: Fn(C) -> (S, S)>(
    part: A,
    a: (Seq<C>, Seq<S>, Seq<S>),
    b: (Seq<C>, Seq<S>, Seq<S>),
)
    requires
        a.1.len() == a.0.len(),
        a.2.len() == a.0.len(),
        forall|k: int|
            0 <= k < a.0.len() ==> call_ensures(part, (#[trigger] a.0[k],), (a.1[k], a.2[k])),
        forall|k: int|
            0 <= k < b.0.len() ==> call_ensures(part, (#[trigger] b.0[k],), (b.1[k], b.2[k])),
        b.0.len() <= b.1.len(),
        b.0.len() <= b.2.len(),
    ensures
        forall|k: int|
            0 <= k < a.0.len() + b.0.len() ==> call_ensures(
                part,
                (#[trigger] (a.0 + b.0)[k],),
                ((a.1 + b.1)[k], (a.2 + b.2)[k]),
            ),
{
    let m = a.0.len() as int;
    assert forall|k: int| 0 <= k < a.0.len() + b.0.len() implies call_ensures(
        part,
        (#[trigger] (a.0 + b.0)[k],),
        ((a.1 + b.1)[k], (a.2 + b.2)[k]),
    ) by {
        if k < m {
            assert((a.0 + b.0)[k] == a.0[k]);
        } else {
            assert((a.0 + b.0)[k] == b.0[k - m]);
        }
    }
}

} // verus!
