//! A single-producer, multi-consumer broadcast ring.
//!
//! `N` slots, a power of two, hold blocks of `M` elements. The producer writes
//! the slot at `head` and then publishes it by advancing `head`, a sequence
//! number that never wraps; a block's slot is its sequence number modulo `N`.
//! Each consumer owns a cursor, the sequence number it reads next, so every
//! consumer sees every block.
//!
//! A consumer at sequence `c` collides with a producer writing sequence `h` iff
//! `c` and `h` are congruent modulo `N`. So `h - c < N` proves that the producer
//! is not in the consumer's slot, and a consumer checks exactly that before and
//! after it copies a block.
//!
//! The head is advanced after the slot is written, so `h - c == N` may mean
//! that the producer is inside the consumer's slot or that the ring is exactly
//! full. Consumers treat it as lapped. A blocking producer therefore stops one
//! slot early, at `N - 1`, and never reaches it.

use vstd::prelude::*;

use crate::buffer::Buffer;
use crate::exceptions::CustomError;
use crate::spmc::model::{ProducerView, Registration, RingView};
use crate::utils::{is_power_of_two, lemma_mask_is_mod};

pub mod amid;
pub mod calls;
pub mod laws;
pub mod model;
pub mod threads;

verus! {

/// How often a consumer retries when the producer walked into its slot while it
/// was copying.
pub const READ_RETRIES: usize = 4;

/// The slots, the head and the consumers' cursors.
pub struct Ring<T: Copy + Default, const N: usize, const M: usize> {
    slots: Vec<Buffer<T, M>>,
    head: u64,
    cursors: Vec<u64>,
    published: Ghost<Seq<Seq<T>>>,
}

impl<T: Copy + Default, const N: usize, const M: usize> View for Ring<T, N, M> {
    type V = RingView<T>;

    closed spec fn view(&self) -> RingView<T> {
        RingView {
            slots: self.slots@.map_values(|b: Buffer<T, M>| b@),
            head: self.head as nat,
            cursors: self.cursors@.map_values(|c: u64| c as nat),
            published: self.published@,
        }
    }
}

/// A block of `m` times one value of `T::default()`.
pub open spec fn defaults<T: Default>(block: Seq<T>, m: nat) -> bool {
    exists|d: T| #[trigger]
        call_ensures(T::default, (), d) && block == Seq::new(m, |j: int| d)
}

impl<T: Copy + Default, const N: usize, const M: usize> Ring<T, N, M> {
    /// The ring's invariant. The head stays below the last sequence number, so
    /// that the one after it always exists.
    pub open spec fn wf(&self) -> bool {
        &&& self@.wf(N as nat, M as nat)
        &&& self@.head < u64::MAX
    }

    /// An empty ring without consumers.
    pub fn new() -> (r: Self)
        requires
            is_power_of_two(N as int),
        ensures
            r.wf(),
            r@.head == 0,
            r@.cursors == Seq::<nat>::empty(),
            r@.published == Seq::<Seq<T>>::empty(),
            forall|i: int| 0 <= i < N ==> defaults(#[trigger] r@.slots[i], M as nat),
    {
        proof {
            lemma_mask_is_mod(0, N as u64);
        }
        let mut slots: Vec<Buffer<T, M>> = Vec::new();
        while slots.len() < N
            invariant
                slots.len() <= N,
                forall|i: int|
                    0 <= i < slots.len() ==> defaults((#[trigger] slots@[i])@, M as nat),
            decreases N - slots.len(),
        {
            slots.push(Buffer::new());
        }
        let r = Self { slots, head: 0, cursors: Vec::new(), published: Ghost(Seq::empty()) };
        broadcast use Buffer::lemma_len;
        r
    }

    /// The slot of a sequence number.
    fn index(&self, seq: u64) -> (i: usize)
        requires
            self.wf(),
        ensures
            i == self@.index(seq as nat),
            i < N,
            self.slots.len() == N,
    {
        proof {
            lemma_mask_is_mod(seq, N as u64);
        }
        (seq & (N as u64 - 1)) as usize
    }

    /// Unconditionally write into the slot at `head` and publish it.
    ///
    /// Gating is the caller's job: [`RingProducer::write`] decides whether the
    /// slot is free before calling this.
    pub fn write(&mut self, src: &[T]) -> (r: Result<(), CustomError>)
        requires
            old(self).wf(),
            old(self)@.head + 1 < u64::MAX,
        ensures
            final(self).wf(),
            src@.len() == M ==> r == Ok::<(), CustomError>(()) && final(self)@ == old(self)@.write(src@),
            src@.len() != M ==> r == Err::<(), CustomError>(CustomError::MismatchInputLength)
                && final(self)@ == old(self)@,
    {
        let i: usize = self.index(self.head);
        if self.slots[i].write(src).is_err() {
            assert(self@ =~= old(self)@);
            return Err(CustomError::MismatchInputLength);
        }
        proof {
            old(self)@.lemma_fill(N as nat, M as nat, src@);
            assert(self@ =~= old(self)@.fill(src@));
        }
        self.publish();
        Ok(())
    }

    /// Make the open slot visible to consumers.
    fn publish(&mut self)
        requires
            old(self).wf(),
            old(self)@.head + 1 < u64::MAX,
        ensures
            final(self).wf(),
            final(self)@ == old(self)@.publish(),
    {
        proof {
            old(self)@.lemma_publish(N as nat, M as nat);
        }
        let ghost block = self@.block(self@.head);
        self.head += 1;
        self.published = Ghost(self.published@.push(block));
        assert(self@ =~= old(self)@.publish());
    }

    /// Store one element into the open, not yet published slot at `head`.
    ///
    /// This is for producers that compute their data one element at a time.
    /// Spreading a block across many calls does not widen the tearing window:
    /// exposure is created by `head` advancing, not by how long the producer
    /// spends before it publishes.
    fn put(&mut self, i: usize, x: T) -> (r: Result<(), CustomError>)
        requires
            old(self).wf(),
        ensures
            final(self).wf(),
            i < M ==> r == Ok::<(), CustomError>(()) && final(self)@ == old(self)@.put(i as int, x),
            i >= M ==> r == Err::<(), CustomError>(CustomError::InvalidIndex)
                && final(self)@ == old(self)@,
    {
        let k: usize = self.index(self.head);
        let r = self.slots[k].set(i, x);
        proof {
            if i < M {
                let block = old(self)@.block(old(self)@.head).update(i as int, x);
                old(self)@.lemma_fill(N as nat, M as nat, block);
                assert(self@ =~= old(self)@.put(i as int, x));
            } else {
                assert(self@ =~= old(self)@);
            }
        }
        r
    }

    /// The content of slot `i`.
    pub fn slot(&self, i: usize) -> (r: Result<&Buffer<T, M>, CustomError>)
        requires
            self.wf(),
        ensures
            i < N ==> r is Ok && r->Ok_0@ == self@.slots[i as int],
            i >= N ==> r == Err::<&Buffer<T, M>, _>(CustomError::InvalidIndex),
    {
        if i < self.slots.len() {
            Ok(&self.slots[i])
        } else {
            Err(CustomError::InvalidIndex)
        }
    }

    /// Element `i` of what `seq`'s slot holds.
    fn element(&self, seq: u64, i: usize) -> (x: T)
        requires
            self.wf(),
            i < M,
        ensures
            x == self@.block(seq as nat)[i as int],
    {
        let k: usize = self.index(seq);
        let block: &[T] = &self.slots[k];
        assert(block@ == self@.slots[k as int]);
        block[i]
    }

    /// How many cursors there are.
    pub fn consumers(&self) -> (n: usize)
        ensures
            n == self@.cursors.len(),
    {
        self.cursors.len()
    }

    /// The published head, for consumers.
    pub fn head(&self) -> (h: u64)
        ensures
            h == self@.head,
    {
        self.head
    }

    /// The head as seen by the producer itself.
    pub fn head_relaxed(&self) -> (h: u64)
        ensures
            h == self@.head,
    {
        self.head
    }

    /// The sequence number the consumer behind `cursor` reads next.
    pub fn position(&self, cursor: usize) -> (seq: u64)
        requires
            cursor < self@.cursors.len(),
        ensures
            seq == self@.cursors[cursor as int],
    {
        self.cursors[cursor]
    }

    /// Move a cursor.
    fn store(&mut self, cursor: usize, seq: u64)
        requires
            old(self).wf(),
            cursor < old(self)@.cursors.len(),
        ensures
            final(self).wf(),
            final(self)@ == old(self)@.store(cursor as int, seq as nat),
    {
        proof {
            old(self)@.lemma_store(N as nat, M as nat, cursor as int, seq as nat);
        }
        self.cursors[cursor] = seq;
        assert(self@ =~= old(self)@.store(cursor as int, seq as nat));
    }
}

/// Producer for a [`Ring`].
///
/// `blocking` selects the overrun policy:
/// - `true`: refuse to overwrite a slot the slowest registered consumer has not
///   read. The producer stalls; no data is lost.
/// - `false`: always write. A lapped consumer notices on its next read and
///   resyncs itself; data is lost but the producer never stalls.
pub struct RingProducer<T: Copy + Default, const N: usize, const M: usize> {
    ring: Ring<T, N, M>,
    /// The consumers to gate against, in the order they were added.
    consumers: Vec<Registration>,
    blocking: bool,
    /// How many elements [`push`](Self::push) has put into the open slot.
    fill: usize,
}

impl<T: Copy + Default, const N: usize, const M: usize> View for RingProducer<T, N, M> {
    type V = ProducerView<T>;

    closed spec fn view(&self) -> ProducerView<T> {
        ProducerView {
            ring: self.ring@,
            consumers: self.consumers@,
            blocking: self.blocking,
            fill: self.fill as nat,
        }
    }
}

impl<T: Copy + Default, const N: usize, const M: usize> RingProducer<T, N, M> {
    /// The producer's invariant.
    pub open spec fn wf(&self) -> bool {
        &&& self@.wf(N as nat, M as nat)
        &&& self@.ring.head < u64::MAX
    }

    /// A producer on an empty ring, with nobody to gate against.
    pub fn new(blocking: bool) -> (p: Self)
        requires
            is_power_of_two(N as int),
        ensures
            p.wf(),
            p@.ring.head == 0,
            p@.ring.cursors == Seq::<nat>::empty(),
            p@.ring.published == Seq::<Seq<T>>::empty(),
            p@.consumers == Seq::<Registration>::empty(),
            p@.blocking == blocking,
            p@.fill == 0,
            forall|i: int| 0 <= i < N ==> defaults(#[trigger] p@.ring.slots[i], M as nat),
    {
        Self { ring: Ring::new(), consumers: Vec::new(), blocking, fill: 0 }
    }

    /// Drop consumers whose thread has ended, so a dead cursor cannot gate this
    /// producer forever.
    fn reap(&mut self)
        requires
            old(self).wf(),
        ensures
            final(self).wf(),
            final(self)@ == old(self)@.reap(),
    {
        let mut live: Vec<Registration> = Vec::new();
        let ghost keep = |r: Registration| !r.finished;
        let mut i: usize = 0;
        while i < self.consumers.len()
            invariant
                i <= self.consumers.len(),
                keep == (|r: Registration| !r.finished),
                live@ == self.consumers@.take(i as int).filter(keep),
                *self == *old(self),
                self.wf(),
                forall|j: int|
                    0 <= j < live.len() ==> (#[trigger] live@[j]).cursor
                        < self@.ring.cursors.len(),
            decreases self.consumers.len() - i,
        {
            let r = self.consumers[i];
            proof {
                assert(self@.consumers[i as int] == r);
                let next = self.consumers@.take(i as int + 1);
                assert(next.drop_last() =~= self.consumers@.take(i as int));
                assert(next.last() == r);
                reveal(Seq::filter);
            }
            if !r.finished {
                live.push(r);
            }
            i += 1;
        }
        assert(self.consumers@.take(i as int) =~= self.consumers@);
        self.consumers = live;
        assert(self@ =~= old(self)@.reap());
    }

    /// The ring this producer writes.
    pub fn ring(&self) -> (r: &Ring<T, N, M>)
        ensures
            r@ == self@.ring,
    {
        &self.ring
    }

    /// The ring this producer writes, for its consumers to read from.
    pub fn ring_mut(&mut self) -> (r: &mut Ring<T, N, M>)
        ensures
            r@ == old(self)@.ring,
            final(self)@ == (ProducerView { ring: final(r)@, ..old(self)@ }),
    {
        &mut self.ring
    }

    /// Whether some registered consumer has no block to spare: writing one more
    /// would leave it a whole lap behind.
    fn gated(&self) -> (g: bool)
        requires
            self.wf(),
        ensures
            g == self@.gated(),
    {
        let head: u64 = self.ring.head_relaxed();
        let mut i: usize = 0;
        while i < self.consumers.len()
            invariant
                i <= self.consumers.len(),
                self.wf(),
                head == self@.ring.head,
                forall|j: int|
                    0 <= j < i ==> self@.ring.lag((#[trigger] self@.consumers[j]).cursor as int)
                        < N - 1,
            decreases self.consumers.len() - i,
        {
            let ghost r = self@.consumers[i as int];
            let c: u64 = self.ring.position(self.consumers[i].cursor);
            if head.saturating_sub(c) >= N as u64 - 1 {
                assert(self@.ring.lag(self@.consumers[i as int].cursor as int) >= N - 1);
                return true;
            }
            i += 1;
        }
        false
    }

    /// Write one block.
    ///
    /// [`CustomError::SlowConsumer`] means the write was refused: a consumer is
    /// too far behind and blocking mode will not overwrite its slot. The block
    /// is not in the ring, and the caller decides whether to retry or drop it.
    /// Non-blocking mode never returns this error.
    ///
    /// Not to be called while [`push`](Self::push) has a block open.
    pub fn write(&mut self, src: &[T]) -> (r: Result<(), CustomError>)
        requires
            old(self).wf(),
            old(self)@.fill == 0,
            old(self)@.ring.head + 1 < u64::MAX,
        ensures
            final(self).wf(),
            (final(self)@, r) == old(self)@.write(src@, M as nat),
    {
        self.reap();
        if self.blocking && self.gated() {
            return Err(CustomError::SlowConsumer);
        }
        let r = self.ring.write(src);
        assert(self@ =~= old(self)@.write(src@, M as nat).0);
        r
    }

    /// Append one element to the block under construction, publishing it once
    /// `M` elements have accumulated.
    ///
    /// `Ok(true)` on the call that published a block, `Ok(false)` while one is
    /// still filling. [`CustomError::SlowConsumer`] comes in blocking mode only,
    /// and only on the first element of a block, since that is where the slot
    /// is committed to.
    pub fn push(&mut self, x: T) -> (r: Result<bool, CustomError>)
        requires
            old(self).wf(),
            old(self)@.ring.head + 1 < u64::MAX,
        ensures
            final(self).wf(),
            (final(self)@, r) == old(self)@.push(x, M as nat),
    {
        if self.fill == 0 {
            self.reap();
            if self.blocking && self.gated() {
                return Err(CustomError::SlowConsumer);
            }
        }
        let ghost before = self@;
        if let Err(e) = self.ring.put(self.fill, x) {
            assert(self@ =~= before);
            return Err(e);
        }
        self.fill += 1;
        if self.fill < M {
            assert(self@ =~= old(self)@.push(x, M as nat).0);
            return Ok(false);
        }
        self.fill = 0;
        self.ring.publish();
        assert(self@ =~= old(self)@.push(x, M as nat).0);
        Ok(true)
    }

    /// How many elements are in the block [`push`](Self::push) has not published
    /// yet.
    pub fn pending(&self) -> (k: usize)
        ensures
            k == self@.fill,
    {
        self.fill
    }

    /// A new consumer that starts at sequence number 0.
    pub fn subscribe(&mut self) -> (c: RingConsumer)
        requires
            old(self).wf(),
        ensures
            final(self).wf(),
            c@ == old(self)@.ring.cursors.len(),
            final(self)@ == (ProducerView {
                ring: RingView {
                    cursors: old(self)@.ring.cursors.push(0),
                    ..old(self)@.ring
                },
                ..old(self)@
            }),
    {
        let cursor: usize = self.ring.cursors.len();
        self.ring.cursors.push(0);
        proof {
            let before = old(self)@.ring;
            assert(self@.ring.cursors =~= before.cursors.push(0));
            assert forall|s: nat| self@.ring.clear(s) implies #[trigger] self@.ring.block(s)
                == self@.ring.published[s as int] by {
                assert(before.clear(s));
                assert(before.block(s) == before.published[s as int]);
            }
            assert forall|i: int| 0 <= i < self@.consumers.len() implies (
            #[trigger] self@.consumers[i]).cursor < self@.ring.cursors.len() by {
                assert(old(self)@.consumers[i].cursor < before.cursors.len());
            }
        }
        RingConsumer { cursor }
    }

    /// Gate against the consumer behind `cursor` from now on. Get the cursor
    /// from [`RingConsumer::cursor`].
    pub fn add_consumer(&mut self, cursor: usize)
        requires
            old(self).wf(),
            cursor < old(self)@.ring.cursors.len(),
        ensures
            final(self).wf(),
            final(self)@ == (ProducerView {
                consumers: old(self)@.consumers.push(Registration { cursor, finished: false }),
                ..old(self)@
            }),
    {
        self.consumers.push(Registration { cursor, finished: false });
        assert forall|i: int| 0 <= i < self@.consumers.len() implies (
        #[trigger] self@.consumers[i]).cursor < self@.ring.cursors.len() by {
            if i < old(self)@.consumers.len() {
                assert(self@.consumers[i] == old(self)@.consumers[i]);
            }
        }
    }

    /// Note that the thread of the `i`th registered consumer has ended. The next
    /// write forgets it.
    pub fn finish(&mut self, i: usize)
        requires
            old(self).wf(),
            i < old(self)@.consumers.len(),
        ensures
            final(self).wf(),
            final(self)@ == (ProducerView {
                consumers: old(self)@.consumers.update(
                    i as int,
                    Registration {
                        cursor: old(self)@.consumers[i as int].cursor,
                        finished: true,
                    },
                ),
                ..old(self)@
            }),
    {
        let cursor: usize = self.consumers[i].cursor;
        self.consumers[i] = Registration { cursor, finished: true };
        assert forall|j: int| 0 <= j < self@.consumers.len() implies (
        #[trigger] self@.consumers[j]).cursor < self@.ring.cursors.len() by {
            assert(old(self)@.consumers[j].cursor < self@.ring.cursors.len());
        }
    }

    /// Forget every registered consumer and hand the registrations out, in
    /// order, for their threads to be waited for.
    pub fn join_all(&mut self) -> (all: Vec<Registration>)
        requires
            old(self).wf(),
        ensures
            final(self).wf(),
            all@ == old(self)@.consumers,
            final(self)@ == (ProducerView {
                consumers: Seq::<Registration>::empty(),
                ..old(self)@
            }),
    {
        let mut all: Vec<Registration> = Vec::new();
        all.append(&mut self.consumers);
        assert(self@.consumers =~= Seq::<Registration>::empty());
        all
    }
}

/// Whether consumers are woken after [`RingProducer::write`] answered `r`: also
/// after a refusal, since a consumer draining a slot is what unblocks the next
/// write, but not when the block itself was unfit.
pub fn write_wakes(r: &Result<(), CustomError>) -> (wake: bool)
    ensures
        wake == (*r is Ok || *r == Err::<(), CustomError>(CustomError::SlowConsumer)),
{
    match r {
        Ok(()) => true,
        Err(e) => *e == CustomError::SlowConsumer,
    }
}

/// Whether consumers are woken after [`RingProducer::push`] answered `r`: when a
/// block was published, and when one was refused.
pub fn push_wakes(r: &Result<bool, CustomError>) -> (wake: bool)
    ensures
        wake == (*r == Ok::<bool, CustomError>(true) || *r == Err::<bool, CustomError>(
            CustomError::SlowConsumer,
        )),
{
    match r {
        Ok(published) => *published,
        Err(e) => *e == CustomError::SlowConsumer,
    }
}

/// Consumer for a [`Ring`]: a handle to one of its cursors.
pub struct RingConsumer {
    cursor: usize,
}

impl View for RingConsumer {
    type V = nat;

    closed spec fn view(&self) -> nat {
        self.cursor as nat
    }
}

impl RingConsumer {
    /// This consumer's current sequence number.
    pub fn head<T: Copy + Default, const N: usize, const M: usize>(
        &self,
        ring: &Ring<T, N, M>,
    ) -> (seq: u64)
        requires
            self@ < ring@.cursors.len(),
        ensures
            seq == ring@.cursors[self@ as int],
    {
        ring.position(self.cursor)
    }

    /// A handle to this consumer's cursor, for [`RingProducer::add_consumer`].
    pub fn cursor(&self) -> (cursor: usize)
        ensures
            cursor == self@,
    {
        self.cursor
    }

    /// Jump to the newest published block, abandoning the backlog.
    ///
    /// For consumers that want freshness over completeness. Wrong for anything
    /// that must not skip.
    pub fn seek_latest<T: Copy + Default, const N: usize, const M: usize>(
        &self,
        ring: &mut Ring<T, N, M>,
    )
        requires
            old(ring).wf(),
            self@ < old(ring)@.cursors.len(),
        ensures
            final(ring).wf(),
            final(ring)@ == old(ring)@.seek_latest(self@ as int),
    {
        let latest: u64 = ring.head().saturating_sub(1);
        ring.store(self.cursor, latest);
    }

    /// Pick a sequence to read, resyncing first if the producer has lapped us.
    ///
    /// The pre-check: on return the producer was not inside the claimed slot. It
    /// says nothing about what happens next; that is what
    /// [`validate`](Self::validate) is for. A lapped consumer lands in the
    /// middle of the ring, which leaves it half a ring of backlog to work
    /// through and half a ring of writes before it is lapped again.
    pub fn claim<T: Copy + Default, const N: usize, const M: usize>(
        &self,
        ring: &mut Ring<T, N, M>,
    ) -> (r: Result<u64, CustomError>)
        requires
            old(ring).wf(),
            self@ < old(ring)@.cursors.len(),
        ensures
            final(ring).wf(),
            final(ring)@ == old(ring)@.claimed(self@ as int),
            match old(ring)@.claim(self@ as int) {
                Some(seq) => r == Ok::<u64, CustomError>(seq as u64) && seq <= final(ring)@.head,
                None => r == Err::<u64, CustomError>(CustomError::SlowProducer),
            },
    {
        let seq: u64 = ring.position(self.cursor);
        let head: u64 = ring.head();
        if seq >= head {
            return Err(CustomError::SlowProducer);
        }
        if head - seq >= N as u64 {
            let resync: u64 = head - (N as u64) / 2;
            ring.store(self.cursor, resync);
            return Ok(resync);
        }
        assert(ring@ =~= old(ring)@.claimed(self@ as int));
        Ok(seq)
    }

    /// The post-check: has the producer stayed out of `seq`'s slot so far?
    pub fn validate<T: Copy + Default, const N: usize, const M: usize>(
        &self,
        ring: &Ring<T, N, M>,
        seq: u64,
    ) -> (v: bool)
        requires
            seq <= ring@.head,
        ensures
            v == (ring@.head - seq < N),
    {
        ring.head() - seq < N as u64
    }

    /// Close the `attempt`th try, counted from 0, at copying block `seq`.
    ///
    /// `Ok(true)`: the copy is good, and the cursor is past it. `Ok(false)`: the
    /// producer walked into the slot, the copy is to be thrown away, and the
    /// cursor is untouched, so the next [`claim`](Self::claim) resyncs.
    /// [`CustomError::SlowConsumer`]: the same, and no try is left.
    pub fn settle<T: Copy + Default, const N: usize, const M: usize>(
        &self,
        ring: &mut Ring<T, N, M>,
        seq: u64,
        attempt: usize,
    ) -> (r: Result<bool, CustomError>)
        requires
            old(ring).wf(),
            self@ < old(ring)@.cursors.len(),
            seq <= old(ring)@.head,
            attempt < READ_RETRIES,
        ensures
            final(ring).wf(),
            old(ring)@.head - seq < N ==> r == Ok::<bool, CustomError>(true) && final(ring)@
                == old(ring)@.store(self@ as int, seq as nat + 1),
            old(ring)@.head - seq >= N ==> final(ring)@ == old(ring)@ && r == (if attempt + 1
                < READ_RETRIES {
                Ok::<bool, CustomError>(false)
            } else {
                Err::<bool, CustomError>(CustomError::SlowConsumer)
            }),
    {
        if self.validate(ring, seq) {
            ring.store(self.cursor, seq + 1);
            return Ok(true);
        }
        if attempt + 1 < READ_RETRIES {
            Ok(false)
        } else {
            Err(CustomError::SlowConsumer)
        }
    }

    /// Borrow the next block without copying it, and release its slot to the
    /// producer at once. The block stays what it is for as long as the ring is
    /// borrowed.
    pub fn read<'a, T: Copy + Default, const N: usize, const M: usize>(
        &self,
        ring: &'a mut Ring<T, N, M>,
    ) -> (r: Result<&'a [T], CustomError>)
        requires
            old(ring).wf(),
            self@ < old(ring)@.cursors.len(),
        ensures
            final(ring).wf(),
            final(ring)@ == old(ring)@.read(self@ as int),
            match old(ring)@.claim(self@ as int) {
                Some(seq) => r is Ok && r->Ok_0@ == old(ring)@.block(seq),
                None => r == Err::<&[T], CustomError>(CustomError::SlowProducer),
            },
    {
        match self.claim(ring) {
            Err(e) => Err(e),
            Ok(seq) => {
                ring.store(self.cursor, seq + 1);
                assert(ring@ =~= old(ring)@.read(self@ as int));
                let i: usize = ring.index(seq);
                Ok(&ring.slots[i])
            },
        }
    }

    /// Copy the next block into `buf`, which must be exactly `M` long. This is
    /// [`read_amid`](Self::read_amid) with nobody else at work.
    pub fn read_into<T: Copy + Default, const N: usize, const M: usize>(
        &self,
        ring: &mut Ring<T, N, M>,
        buf: &mut [T],
    ) -> (r: Result<(), CustomError>)
        requires
            old(ring).wf(),
            self@ < old(ring)@.cursors.len(),
        ensures
            final(ring).wf(),
            old(buf)@.len() != M ==> r == Err::<(), CustomError>(CustomError::MismatchInputLength)
                && final(buf)@ == old(buf)@ && final(ring)@ == old(ring)@,
            old(buf)@.len() == M ==> final(ring)@ == old(ring)@.read(self@ as int) && match old(
                ring,
            )@.claim(self@ as int) {
                Some(seq) => r == Ok::<(), CustomError>(()) && final(buf)@ == old(ring)@.block(
                    seq,
                ),
                None => r == Err::<(), CustomError>(CustomError::SlowProducer) && final(buf)@
                    == old(buf)@,
            },
            r is Ok && N >= 2 ==> amid::read_whole(
                old(ring)@,
                final(ring)@,
                self@ as int,
                final(buf)@,
            ),
    {
        assert(amid::idle(amid::nobody::<T>));
        self.read_amid(ring, buf, &amid::nobody)
    }

    /// Borrow the next block, holding its slot until the guard is released.
    ///
    /// The guard borrows the consumer exclusively: two live guards would both
    /// read the same sequence. Holding the slot works by not advancing the
    /// cursor, which only helps under a blocking producer.
    pub fn read_guard<'a, T: Copy + Default, const N: usize, const M: usize>(
        &'a mut self,
        ring: &mut Ring<T, N, M>,
    ) -> (r: Result<ReadGuard<'a>, CustomError>)
        requires
            old(ring).wf(),
            old(self)@ < old(ring)@.cursors.len(),
        ensures
            final(self)@ == old(self)@,
            final(ring).wf(),
            final(ring)@ == old(ring)@.claimed(old(self)@ as int),
            match old(ring)@.claim(old(self)@ as int) {
                Some(seq) => r is Ok && r->Ok_0@ == (old(self)@, seq),
                None => r == Err::<ReadGuard<'a>, CustomError>(CustomError::SlowProducer),
            },
    {
        match self.claim(ring) {
            Ok(seq) => Ok(ReadGuard { consumer: self, seq }),
            Err(e) => Err(e),
        }
    }

    /// The reading loop of this consumer's thread, before its first read.
    /// `timeout` is in seconds; the loop ends if the ring stays empty for that
    /// long.
    pub fn start_reading(&self, timeout: Option<u64>) -> (r: Reader)
        ensures
            r@ == (timeout, false),
    {
        Reader { timeout, parked: false }
    }
}

/// A held slot. It goes back to the producer when the guard is released.
pub struct ReadGuard<'a> {
    consumer: &'a RingConsumer,
    seq: u64,
}

impl<'a> View for ReadGuard<'a> {
    /// The consumer's cursor and the sequence number held.
    type V = (nat, nat);

    closed spec fn view(&self) -> (nat, nat) {
        (self.consumer@, self.seq as nat)
    }
}

impl<'a> ReadGuard<'a> {
    /// The sequence number this guard is holding.
    pub fn seq(&self) -> (seq: u64)
        ensures
            seq == self@.1,
    {
        self.seq
    }

    /// Whether the producer has stayed out of this slot so far: the post-check,
    /// callable at any point while the guard is held.
    pub fn is_valid<T: Copy + Default, const N: usize, const M: usize>(
        &self,
        ring: &Ring<T, N, M>,
    ) -> (v: bool)
        requires
            self@.1 <= ring@.head,
        ensures
            v == (ring@.head - self@.1 < N),
    {
        self.consumer.validate(ring, self.seq)
    }

    /// What the held slot contains now.
    pub fn block<'b, T: Copy + Default, const N: usize, const M: usize>(
        &self,
        ring: &'b Ring<T, N, M>,
    ) -> (r: &'b [T])
        requires
            ring.wf(),
        ensures
            r@ == ring@.block(self@.1),
    {
        let i: usize = ring.index(self.seq);
        &ring.slots[i]
    }

    /// Give the slot back: the cursor moves past it.
    pub fn release<T: Copy + Default, const N: usize, const M: usize>(
        self,
        ring: &mut Ring<T, N, M>,
    )
        requires
            old(ring).wf(),
            self@.0 < old(ring)@.cursors.len(),
            self@.1 <= old(ring)@.head,
        ensures
            final(ring).wf(),
            final(ring)@ == old(ring)@.store(self@.0 as int, self@.1 + 1),
    {
        ring.store(self.consumer.cursor, self.seq + 1);
    }
}

/// What a reading thread does next.
#[derive(Clone, Copy, Debug, PartialEq, Eq, Structural)]
pub enum ReaderAction {
    /// Hand the block to the callback, then read again.
    Deliver,
    /// Read again at once.
    Again,
    /// Park for that many seconds, then read again.
    Park(u64),
    /// End the thread.
    Stop,
}

/// The loop of a reading thread, one read at a time. Without a timeout it reads
/// on forever; with one it parks when the ring is empty, and stops if a read
/// after parking still finds nothing.
pub struct Reader {
    timeout: Option<u64>,
    parked: bool,
}

impl View for Reader {
    /// The timeout in seconds, and whether the thread has just been parked.
    type V = (Option<u64>, bool);

    closed spec fn view(&self) -> (Option<u64>, bool) {
        (self.timeout, self.parked)
    }
}

/// What the reading loop in state `s` does after a read that did or did not
/// yield a block.
pub open spec fn reader_action(s: (Option<u64>, bool), got: bool) -> ReaderAction {
    if got {
        ReaderAction::Deliver
    } else if s.1 {
        ReaderAction::Stop
    } else {
        match s.0 {
            Some(secs) => ReaderAction::Park(secs),
            None => ReaderAction::Again,
        }
    }
}

impl Reader {
    /// Decide what follows a read; `got` says whether it yielded a block.
    pub fn step(&mut self, got: bool) -> (a: ReaderAction)
        ensures
            a == reader_action(old(self)@, got),
            final(self)@ == (old(self)@.0, a is Park),
    {
        if got {
            self.parked = false;
            return ReaderAction::Deliver;
        }
        if self.parked {
            self.parked = false;
            return ReaderAction::Stop;
        }
        match self.timeout {
            Some(secs) => {
                self.parked = true;
                ReaderAction::Park(secs)
            },
            None => ReaderAction::Again,
        }
    }
}

} // verus!
