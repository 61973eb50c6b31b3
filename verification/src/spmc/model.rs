//! The ring as a mathematical object: what a slot, the head, a cursor and the
//! published history are, and what each operation makes of them.

use vstd::prelude::*;

use crate::exceptions::CustomError;
use crate::utils::is_power_of_two;

verus! {

/// The state of a ring.
#[verifier::ext_equal]
pub struct RingView<T> {
    /// The content of each slot.
    pub slots: Seq<Seq<T>>,
    /// How many blocks have been published; also the sequence number of the
    /// block under construction.
    pub head: nat,
    /// The sequence number each consumer reads next.
    pub cursors: Seq<nat>,
    /// Every block ever published, by sequence number.
    pub published: Seq<Seq<T>>,
}

impl<T> RingView<T> {
    /// The slot that sequence number `seq` lives in.
    pub open spec fn index(self, seq: nat) -> int {
        seq as int % self.slots.len() as int
    }

    /// The content of the slot that sequence number `seq` lives in.
    pub open spec fn block(self, seq: nat) -> Seq<T> {
        self.slots[self.index(seq)]
    }

    /// The producer stands clear of `seq`'s slot: it was published, and fewer
    /// than a whole lap of blocks has been published since.
    pub open spec fn clear(self, seq: nat) -> bool {
        seq < self.head && self.head - seq < self.slots.len()
    }

    /// The invariant: `n` slots of `m` elements, as many published blocks as
    /// the head says, and every block the producer stands clear of is still in
    /// its slot.
    pub open spec fn wf(self, n: nat, m: nat) -> bool {
        &&& is_power_of_two(n as int)
        &&& n > 0
        &&& self.slots.len() == n
        &&& forall|i: int| 0 <= i < n ==> (#[trigger] self.slots[i]).len() == m
        &&& self.published.len() == self.head
        &&& forall|s: nat| self.clear(s) ==> #[trigger] self.block(s) == self.published[s as int]
    }

    /// The open slot now holds `block`.
    pub open spec fn fill(self, block: Seq<T>) -> Self {
        RingView { slots: self.slots.update(self.index(self.head), block), ..self }
    }

    /// Element `i` of the open slot is now `x`.
    pub open spec fn put(self, i: int, x: T) -> Self {
        self.fill(self.block(self.head).update(i, x))
    }

    /// The open slot has become visible to consumers.
    pub open spec fn publish(self) -> Self {
        RingView {
            head: self.head + 1,
            published: self.published.push(self.block(self.head)),
            ..self
        }
    }

    /// A whole block has been written and published.
    pub open spec fn write(self, block: Seq<T>) -> Self {
        self.fill(block).publish()
    }

    /// How many published blocks consumer `c` has not read; none if it is ahead.
    pub open spec fn lag(self, c: int) -> nat {
        if self.cursors[c] <= self.head {
            (self.head - self.cursors[c]) as nat
        } else {
            0
        }
    }

    /// Consumer `c` now reads `seq` next.
    pub open spec fn store(self, c: int, seq: nat) -> Self {
        RingView { cursors: self.cursors.update(c, seq), ..self }
    }

    /// The sequence number consumer `c` may read: none if it has caught up, the
    /// middle of the ring if it has been lapped, its own cursor otherwise.
    pub open spec fn claim(self, c: int) -> Option<nat> {
        if self.cursors[c] >= self.head {
            None
        } else if self.head - self.cursors[c] >= self.slots.len() {
            Some((self.head - self.slots.len() / 2) as nat)
        } else {
            Some(self.cursors[c])
        }
    }

    /// The state after consumer `c` has claimed: a lapped consumer's cursor is
    /// moved to what it claimed, nothing else changes.
    pub open spec fn claimed(self, c: int) -> Self {
        match self.claim(c) {
            Some(seq) => self.store(c, seq),
            None => self,
        }
    }

    /// The state after consumer `c` has read one block: past what it claimed.
    pub open spec fn read(self, c: int) -> Self {
        match self.claim(c) {
            Some(seq) => self.store(c, seq + 1),
            None => self,
        }
    }

    /// The state after consumer `c` has jumped to the newest published block.
    pub open spec fn seek_latest(self, c: int) -> Self {
        self.store(c, if self.head == 0 { 0 } else { (self.head - 1) as nat })
    }
}

/// Nothing that was published is taken back.
pub open spec fn kept<T>(a: RingView<T>, b: RingView<T>) -> bool {
    &&& a.head <= b.head
    &&& a.published.len() <= b.published.len()
    &&& forall|s: int|
        0 <= s < a.published.len() ==> #[trigger] b.published[s] == a.published[s]
}

/// What others may make of the ring while consumer `c` does nothing: they publish
/// blocks, write into the open slot and move their own cursors.
pub open spec fn moved_on<T>(a: RingView<T>, b: RingView<T>, c: int) -> bool {
    &&& kept(a, b)
    &&& 0 <= c < b.cursors.len()
    &&& b.cursors[c] == a.cursors[c]
}

/// Sequence numbers less than a lap apart live in different slots.
pub proof fn lemma_slots_differ(a: int, b: int, n: int)
    requires
        a < b,
        b - a < n,
    ensures
        a % n != b % n,
{
    vstd::arithmetic::div_mod::lemma_fundamental_div_mod(a, n);
    vstd::arithmetic::div_mod::lemma_fundamental_div_mod(b, n);
    if a % n == b % n {
        let q = b / n - a / n;
        assert(b - a == n * q) by (nonlinear_arith)
            requires
                a == n * (a / n) + a % n,
                b == n * (b / n) + b % n,
                a % n == b % n,
                q == b / n - a / n,
        ;
        assert(false) by (nonlinear_arith)
            requires
                0 < n * q < n,
        ;
    }
}

impl<T> RingView<T> {
    /// Writing into the open slot touches no block the producer stands clear of.
    pub proof fn lemma_fill(self, n: nat, m: nat, block: Seq<T>)
        requires
            self.wf(n, m),
            block.len() == m,
        ensures
            self.fill(block).wf(n, m),
            self.fill(block).block(self.head) == block,
    {
        let next = self.fill(block);
        vstd::arithmetic::div_mod::lemma_mod_bound(self.head as int, n as int);
        assert forall|s: nat| next.clear(s) implies #[trigger] next.block(s)
            == next.published[s as int] by {
            lemma_slots_differ(s as int, self.head as int, n as int);
            assert(self.clear(s));
            assert(self.block(s) == self.published[s as int]);
        }
    }

    /// Publishing the open slot keeps the invariant.
    pub proof fn lemma_publish(self, n: nat, m: nat)
        requires
            self.wf(n, m),
        ensures
            self.publish().wf(n, m),
    {
        let next = self.publish();
        vstd::arithmetic::div_mod::lemma_mod_bound(self.head as int, n as int);
        assert forall|s: nat| next.clear(s) implies #[trigger] next.block(s)
            == next.published[s as int] by {
            if s < self.head {
                assert(self.clear(s));
                assert(self.block(s) == self.published[s as int]);
            }
        }
    }

    /// Moving a cursor keeps the invariant.
    pub proof fn lemma_store(self, n: nat, m: nat, c: int, seq: nat)
        requires
            self.wf(n, m),
        ensures
            self.store(c, seq).wf(n, m),
    {
        let next = self.store(c, seq);
        assert forall|s: nat| next.clear(s) implies #[trigger] next.block(s)
            == next.published[s as int] by {
            assert(self.clear(s));
            assert(self.block(s) == self.published[s as int]);
        }
    }
}

/// A consumer the producer gates against: which cursor it reads from, and
/// whether its thread has ended.
#[derive(Clone, Copy, Debug, PartialEq, Eq, Structural)]
pub struct Registration {
    pub cursor: usize,
    pub finished: bool,
}

/// The state of a producer, its ring included.
#[verifier::ext_equal]
pub struct ProducerView<T> {
    pub ring: RingView<T>,
    pub consumers: Seq<Registration>,
    pub blocking: bool,
    /// How many elements of the open slot have been pushed.
    pub fill: nat,
}

impl<T> ProducerView<T> {
    /// The ring is well formed, every registered cursor exists, and the open
    /// block is not full.
    pub open spec fn wf(self, n: nat, m: nat) -> bool {
        &&& self.ring.wf(n, m)
        &&& forall|i: int|
            0 <= i < self.consumers.len() ==> (#[trigger] self.consumers[i]).cursor
                < self.ring.cursors.len()
        &&& self.fill == 0 || self.fill < m
    }

    /// Consumers whose thread has ended are forgotten.
    pub open spec fn reap(self) -> Self {
        ProducerView { consumers: self.consumers.filter(|r: Registration| !r.finished), ..self }
    }

    /// Some registered consumer is a full ring, less the guard slot, behind.
    pub open spec fn gated(self) -> bool {
        exists|i: int|
            0 <= i < self.consumers.len() && self.ring.lag(
                (#[trigger] self.consumers[i]).cursor as int,
            ) >= self.ring.slots.len() - 1
    }

    /// The next block would be refused.
    pub open spec fn refuses(self) -> bool {
        self.blocking && self.reap().gated()
    }

    /// One block of `m` elements handed over at once: the state it leaves and
    /// the answer.
    pub open spec fn write(self, block: Seq<T>, m: nat) -> (Self, Result<(), CustomError>) {
        let p = self.reap();
        if self.refuses() {
            (p, Err(CustomError::SlowConsumer))
        } else if block.len() != m {
            (p, Err(CustomError::MismatchInputLength))
        } else {
            (ProducerView { ring: p.ring.write(block), ..p }, Ok(()))
        }
    }

    /// One element handed over: the state it leaves and the answer.
    pub open spec fn push(self, x: T, m: nat) -> (Self, Result<bool, CustomError>) {
        let p = if self.fill == 0 {
            self.reap()
        } else {
            self
        };
        if self.fill == 0 && self.refuses() {
            (p, Err(CustomError::SlowConsumer))
        } else if self.fill >= m {
            (p, Err(CustomError::InvalidIndex))
        } else if self.fill + 1 < m {
            (
                ProducerView { ring: p.ring.put(self.fill as int, x), fill: self.fill + 1, ..p },
                Ok(false),
            )
        } else {
            (
                ProducerView { ring: p.ring.put(self.fill as int, x).publish(), fill: 0, ..p },
                Ok(true),
            )
        }
    }
}

} // verus!
