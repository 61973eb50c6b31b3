//! Reading a block while others are at work on the ring.
//!
//! A read is not one step. Between the claim, every element it copies and the
//! check that closes it, the producer may store elements and publish, and other
//! consumers may move. What they do at each of those points is handed in.

use vstd::prelude::*;

use crate::exceptions::CustomError;
use crate::spmc::model::{kept, moved_on, RingView};
use crate::spmc::{Ring, RingConsumer, READ_RETRIES};

verus! {

/// One step of somebody else.
#[derive(Debug)]
pub enum Act<T> {
    /// The producer stores an element of the open slot.
    Put(usize, T),
    /// The producer publishes the open slot.
    Publish,
    /// The consumer behind that cursor moves it to that sequence number.
    Move(usize, u64),
}

/// The function says at every point what others do there.
pub open spec fn always_answers<T, F: Fn(usize, usize) -> Vec<Act<T>>>(others: F) -> bool {
    forall|attempt: usize, copied: usize| #[trigger] call_requires(others, (attempt, copied))
}

/// Nobody else is at work.
pub open spec fn idle<T, F: Fn(usize, usize) -> Vec<Act<T>>>(others: F) -> bool {
    forall|attempt: usize, copied: usize, acts: Vec<Act<T>>| #[trigger]
        call_ensures(others, (attempt, copied), acts) ==> acts@.len() == 0
}

/// Nobody does anything.
pub fn nobody<T>(attempt: usize, copied: usize) -> (acts: Vec<Act<T>>)
    ensures
        acts@.len() == 0,
{
    Vec::new()
}

/// Let others take their steps. Nobody but the consumer itself moves its cursor,
/// and the last sequence number is never used up.
fn take_turns<T: Copy + Default, const N: usize, const M: usize>(
    ring: &mut Ring<T, N, M>,
    acts: &Vec<Act<T>>,
    own: usize,
)
    requires
        old(ring).wf(),
        own < old(ring)@.cursors.len(),
    ensures
        final(ring).wf(),
        moved_on(old(ring)@, final(ring)@, own as int),
        acts@.len() == 0 ==> final(ring)@ == old(ring)@,
{
    let ghost start = ring@;
    let mut k: usize = 0;
    while k < acts.len()
        invariant
            k <= acts@.len(),
            ring.wf(),
            own < ring@.cursors.len(),
            moved_on(start, ring@, own as int),
            k == 0 ==> ring@ == start,
        decreases acts@.len() - k,
    {
        match &acts[k] {
            Act::Put(i, x) => {
                let _ = ring.put(*i, *x);
            },
            Act::Publish => {
                if ring.head() < u64::MAX - 1 {
                    ring.publish();
                }
            },
            Act::Move(cursor, seq) => {
                if *cursor != own && *cursor < ring.consumers() {
                    ring.store(*cursor, *seq);
                }
            },
        }
        k += 1;
    }
}

impl RingConsumer {
    /// Copy the next block into `buf`, which must be exactly `M` long, while
    /// others are at work: `others` says what they do after so many elements of
    /// that attempt have been copied.
    ///
    /// Both halves of the protocol are applied: the pre-check in
    /// [`claim`](Self::claim) and the post-check in [`settle`](Self::settle). A
    /// block that the producer walked into meanwhile is thrown away and another
    /// one claimed, a few times over.
    pub fn read_amid<
        T: Copy + Default,
        F: Fn(usize, usize) -> Vec<Act<T>>,
        const N: usize,
        const M: usize,
    >(&self, ring: &mut Ring<T, N, M>, buf: &mut [T], others: &F) -> (r: Result<(), CustomError>)
        requires
            old(ring).wf(),
            self@ < old(ring)@.cursors.len(),
            always_answers(*others),
        ensures
            final(ring).wf(),
            final(buf)@.len() == old(buf)@.len(),
            old(buf)@.len() != M ==> r == Err::<(), CustomError>(CustomError::MismatchInputLength)
                && final(buf)@ == old(buf)@ && final(ring)@ == old(ring)@,
            r == Err::<(), CustomError>(CustomError::MismatchInputLength) ==> old(buf)@.len() != M,
            // Nothing to read, from the first.
            old(buf)@.len() == M ==> (r == Err::<(), CustomError>(CustomError::SlowProducer)
                <==> old(ring)@.claim(self@ as int) is None),
            r == Err::<(), CustomError>(CustomError::SlowProducer) ==> final(ring)@ == old(ring)@
                && final(buf)@ == old(buf)@,
            // One whole block as it was published, and the cursor past it.
            r is Ok && N >= 2 ==> read_whole(
                old(ring)@,
                final(ring)@,
                self@ as int,
                final(buf)@,
            ),
            // As long as the producer is not a lap ahead, the read succeeds and
            // skips nothing.
            old(buf)@.len() == M && old(ring)@.claim(self@ as int) is Some && final(ring)@.head
                - old(ring)@.cursors[self@ as int] < N ==> r is Ok && final(ring)@.cursors[
                self@ as int
            ] == old(ring)@.cursors[self@ as int] + 1,
            // Giving up takes a producer that came a lap further in every attempt.
            r == Err::<(), CustomError>(CustomError::SlowConsumer) ==> final(ring)@.head - old(
                ring,
            )@.head >= 1 + (READ_RETRIES - 1) * (N - N / 2),
            // With nobody else at work.
            old(buf)@.len() == M && idle(*others) ==> final(ring)@ == old(ring)@.read(
                self@ as int,
            ) && (old(ring)@.claim(self@ as int) matches Some(seq) ==> r == Ok::<(), CustomError>(())
                && final(buf)@ == old(ring)@.block(seq)),
    {
        if buf.len() != M {
            return Err(CustomError::MismatchInputLength);
        }
        let ghost start = ring@;
        let ghost c = self@ as int;
        let mut attempt: usize = 0;
        loop
            invariant
                attempt < READ_RETRIES,
                start == old(ring)@,
                c == self@,
                always_answers(*others),
                ring.wf(),
                0 <= c < ring@.cursors.len(),
                buf@.len() == M,
                old(buf)@.len() == M,
                kept(start, ring@),
                start.cursors[c] <= ring@.cursors[c],
                attempt == 0 ==> ring@ == start && buf@ == old(buf)@,
                attempt > 0 ==> start.claim(c) is Some && ring@.cursors[c] < ring@.head
                    && ring@.head - ring@.cursors[c] >= N && !idle(*others) && ring@.head
                    - start.head >= 1 + (attempt - 1) * (N - N / 2),
            decreases READ_RETRIES - attempt,
        {
            let seq: u64 = match self.claim(ring) {
                Ok(seq) => seq,
                Err(e) => {
                    return Err(e);
                },
            };
            let acts = others(attempt, 0);
            take_turns(ring, &acts, self.cursor);
            self.copy_amid(ring, seq, buf, attempt, others);
            assert(attempt * (N - N / 2) == (attempt - 1) * (N - N / 2) + (N - N / 2))
                by (nonlinear_arith);
            match self.settle(ring, seq, attempt) {
                Ok(true) => {
                    return Ok(());
                },
                Ok(false) => {
                    attempt += 1;
                },
                Err(e) => {
                    return Err(e);
                },
            }
        }
    }

    /// Copy the elements of a claimed block one by one while others are at work.
    fn copy_amid<
        T: Copy + Default,
        F: Fn(usize, usize) -> Vec<Act<T>>,
        const N: usize,
        const M: usize,
    >(&self, ring: &mut Ring<T, N, M>, seq: u64, buf: &mut [T], attempt: usize, others: &F)
        requires
            old(ring).wf(),
            self@ < old(ring)@.cursors.len(),
            always_answers(*others),
            old(buf)@.len() == M,
        ensures
            final(ring).wf(),
            moved_on(old(ring)@, final(ring)@, self@ as int),
            final(buf)@.len() == M,
            seq < old(ring)@.head && final(ring)@.head - seq < N ==> final(buf)@
                == final(ring)@.published[seq as int],
            idle(*others) ==> final(ring)@ == old(ring)@ && final(buf)@ == old(ring)@.block(
                seq as nat,
            ),
    {
        let ghost start = ring@;
        let ghost c = self@ as int;
        let mut i: usize = 0;
        while i < M
            invariant
                i <= M,
                c == self@,
                always_answers(*others),
                ring.wf(),
                0 <= c < ring@.cursors.len(),
                moved_on(start, ring@, c),
                buf@.len() == M,
                seq < start.head && ring@.head - seq < N ==> forall|j: int|
                    0 <= j < i ==> #[trigger] buf@[j] == ring@.published[seq as int][j],
                idle(*others) ==> ring@ == start && forall|j: int|
                    0 <= j < i ==> #[trigger] buf@[j] == start.block(seq as nat)[j],
            decreases M - i,
        {
            let ghost before = ring@;
            let x = ring.element(seq, i);
            buf[i] = x;
            let acts = others(attempt, i + 1);
            take_turns(ring, &acts, self.cursor);
            proof {
                if seq < start.head && ring@.head - seq < N {
                    assert(before.clear(seq as nat));
                    assert(before.block(seq as nat) == before.published[seq as int]);
                    assert(before.published[seq as int] == ring@.published[seq as int]);
                }
            }
            i += 1;
        }
        proof {
            vstd::arithmetic::div_mod::lemma_mod_bound(seq as int, N as int);
            if seq < start.head && ring@.head - seq < N {
                assert(ring@.clear(seq as nat));
                assert(ring@.block(seq as nat) == ring@.published[seq as int]);
                assert(buf@ =~= ring@.published[seq as int]);
            }
            if idle(*others) {
                assert(buf@ =~= start.block(seq as nat));
            }
        }
    }
}

/// What a read that succeeded has done: the copy is a whole block as it was
/// published, at or after the one that was next, and the cursor is past it.
pub open spec fn read_whole<T>(before: RingView<T>, after: RingView<T>, c: int, copy: Seq<T>) -> bool {
    let seq = after.cursors[c] - 1;
    &&& before.cursors[c] <= seq < after.head
    &&& copy == after.published[seq]
    &&& kept(before, after)
}

} // verus!
