//! A USB transfer from its bytes to the rings: the station is brought to the
//! middle, and what it plays goes to the speaker and the whole band to the
//! spectrum.

use vstd::prelude::*;

use crate::dsp::answerable;
use crate::dsp::stages::{IqDcBlocker, Xlator};
use crate::flow::chain::flows;
use crate::flow::prepare::{prepare, Front};
use crate::flow::{deliver, DSPFlow, Transfer, PAIRS};
use crate::source::{CPAL_BLOCK, IQ_BLOCK, IQ_SLOTS, OFFSET_TUNING_HZ};
use crate::spmc::laws::push_all;
use crate::spmc::RingProducer;

verus! {

/// Everything a transfer passes through.
pub struct Receiver<S: Copy, C: Copy> {
    pub blocker: IqDcBlocker<S>,
    pub xlator: Xlator<C>,
    /// By how many Hz the translator shifts.
    pub shift: i64,
    pub transfer: Transfer<S>,
    pub flow: DSPFlow<S>,
}

/// The arithmetic behind the front end.
pub struct Back<T, F, A, D, P> {
    /// The turn from one sample to the next that shifts by so many Hz.
    pub turn: T,
    /// The taps of a decimator applied to a window.
    pub convolve: F,
    /// A pair and the one before, as an angle.
    pub angle: A,
    /// A branch of the resampler applied to a window.
    pub dot: D,
    /// A sample and the output before, de-emphasized.
    pub pole: P,
}

impl<T, F, A, D, P> Back<T, F, A, D, P> {
    /// Every step can be taken, with that many taps in a branch of the resampler.
    pub open spec fn total<S, C>(self, taps: nat) -> bool where
        T: Fn(i64) -> C,
        F: Fn(&[S], &[S]) -> S,
        A: Fn(S, S, S, S) -> S,
        D: Fn(&[S], &[S]) -> S,
        P: Fn(S, S) -> S,
     {
        &&& forall|hz: i64| #[trigger] call_requires(self.turn, (hz,))
        &&& answerable(self.convolve, 27)
        &&& answerable(self.convolve, 69)
        &&& forall|a: S, b: S, c: S, d: S| #[trigger] call_requires(self.angle, (a, b, c, d))
        &&& answerable(self.dot, taps)
        &&& forall|a: S, b: S| #[trigger] call_requires(self.pole, (a, b))
    }

    /// The turn that the translator may have once it shifts by `wanted`: another
    /// one only where it did not already.
    pub open spec fn tunes<C>(self, was: i64, delta: C, wanted: i64, next: C) -> bool where
        T: Fn(i64) -> C,
     {
        if wanted == was {
            next == delta
        } else {
            call_ensures(self.turn, (wanted,), next)
        }
    }
}

impl<S: Copy, C: Copy> Receiver<S, C> {
    /// No stage is out of step.
    pub open spec fn wf(&self) -> bool {
        &&& self.xlator.wf()
        &&& self.transfer.wf()
        &&& self.flow.wf()
    }

    /// How many taps a branch of the resampler has.
    pub open spec fn branch_taps(&self) -> nat {
        self.flow@.resampler.history.len() + 1
    }

    /// A receiver that has heard nothing yet and shifts by so many Hz, which is a
    /// turn by `delta` a sample.
    pub fn new(flow: DSPFlow<S>, silence: S, one: C, shift: i64, delta: C) -> (r: Self)
        requires
            flow.wf(),
        ensures
            r.wf(),
            r.blocker.i_blocker.offset == silence,
            r.blocker.q_blocker.offset == silence,
            r.xlator == (Xlator { phase: one, delta, n: 0 }),
            r.shift == shift,
            forall|k: int|
                0 <= k < IQ_BLOCK ==> #[trigger] r.transfer.interleaved()[k] == silence,
            r.flow == flow,
    {
        Receiver {
            blocker: IqDcBlocker::new(silence),
            xlator: Xlator::new(one, delta),
            shift,
            transfer: Transfer::new(silence),
            flow,
        }
    }

    /// Take in a transfer. The station is `offset` Hz from the frequency the tuner
    /// is set for, and the tuner is parked below that: turn by another angle where
    /// the two together are a new shift, prepare the samples, make audio of them,
    /// and hand both on. The phase does not jump.
    pub fn receive<B, L, G, J, M, U, Q, T, F, A, D, P>(
        &mut self,
        bytes: &[u8],
        offset: i64,
        front: &Front<B, L, G, J, M, U, Q>,
        back: &Back<T, F, A, D, P>,
        speaker: &mut RingProducer<S, IQ_SLOTS, CPAL_BLOCK>,
        spectrum: &mut RingProducer<S, IQ_SLOTS, IQ_BLOCK>,
    ) where
        S: Default,
        B: Fn(u8) -> S,
        L: Fn(S, S) -> S,
        G: Fn(S, S) -> S,
        J: Fn(S, S) -> C,
        M: Fn(C, C) -> C,
        U: Fn(C) -> C,
        Q: Fn(C) -> (S, S),
        T: Fn(i64) -> C,
        F: Fn(&[S], &[S]) -> S + Copy,
        A: Fn(S, S, S, S) -> S,
        D: Fn(&[S], &[S]) -> S + Copy,
        P: Fn(S, S) -> S,

        requires
            old(self).wf(),
            bytes@.len() <= 2 * PAIRS,
            OFFSET_TUNING_HZ + offset <= i64::MAX,
            front.total::<S, C>(),
            back.total::<S, C>(old(self).branch_taps()),
            old(speaker).wf(),
            old(spectrum).wf(),
            old(spectrum)@.fill == 0,
            old(speaker)@.ring.head + CPAL_BLOCK < u64::MAX,
            old(spectrum)@.ring.head + 1 < u64::MAX,
        ensures
            final(self).wf(),
            final(self).branch_taps() == old(self).branch_taps(),
            final(self).shift == OFFSET_TUNING_HZ + offset,
            final(speaker).wf(),
            final(spectrum).wf(),
            final(spectrum)@.fill == 0,
            back.tunes(
                old(self).shift,
                old(self).xlator.delta,
                (OFFSET_TUNING_HZ + offset) as i64,
                final(self).xlator.delta,
            ),
            front.prepares(
                bytes@,
                (
                    old(self).blocker,
                    Xlator { delta: final(self).xlator.delta, ..old(self).xlator },
                    old(self).transfer,
                ),
                (final(self).blocker, final(self).xlator, final(self).transfer),
            ),
            exists|count: int|
                {
                    &&& #[trigger] flows(
                        back.convolve,
                        back.angle,
                        back.dot,
                        back.pole,
                        old(self).flow@,
                        final(self).transfer.i(),
                        final(self).transfer.q(),
                        final(self).flow@,
                        count,
                    )
                    &&& final(speaker)@ == push_all(
                        old(speaker)@,
                        final(self).flow@.out.take(count),
                        CPAL_BLOCK as nat,
                    )
                },
            final(spectrum)@ == old(spectrum)@.write(
                final(self).transfer.interleaved(),
                IQ_BLOCK as nat,
            ).0,
    {
        let wanted: i64 = OFFSET_TUNING_HZ as i64 + offset;
        if wanted != self.shift {
            self.shift = wanted;
            self.xlator.set_offset((back.turn)(wanted));
        }
        let ghost turned = self.xlator;
        prepare(bytes, &mut self.blocker, &mut self.xlator, &mut self.transfer, front);
        let count: usize = self.flow.process(
            &self.transfer,
            back.convolve,
            &back.angle,
            back.dot,
            &back.pole,
        );
        deliver(self.flow.out(), count, &self.transfer, speaker, spectrum);
        assert(turned == Xlator { delta: self.xlator.delta, ..old(self).xlator });
    }
}

} // verus!
