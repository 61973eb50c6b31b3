//! The whole chain in one step.

use vstd::prelude::*;

use crate::dsp::answerable;
use crate::dsp::stages::{demodulated, latest, smoothed};
use crate::flow::{narrowed, resampled, DSPFlow, FlowView, Transfer, NARROW};

verus! {

/// What the chain may make of a block of I and Q: `count` samples of audio.
pub open spec fn flows<
    S,
    F: Fn(&[S], &[S]) -> S,
    A: Fn(S, S, S, S) -> S,
    D: Fn(&[S], &[S]) -> S,
    P: Fn(S, S) -> S,
>(
    convolve: F,
    angle: A,
    dot: D,
    pole: P,
    before: FlowView<S>,
    i: Seq<S>,
    q: Seq<S>,
    after: FlowView<S>,
    count: int,
) -> bool {
    &&& after.wf()
    &&& 163 <= count <= 164
    &&& 25 * count == 4 * NARROW + after.carry() - before.carry()
    &&& after.taps_1 == before.taps_1
    &&& after.taps_2 == before.taps_2
    &&& exists|middle: Seq<S>| #[trigger]
        narrowed(
            convolve,
            before,
            before.history_1.0,
            before.history_2.0,
            i,
            middle,
            after.history_1.0,
            after.history_2.0,
            after.narrow.0,
        )
    &&& exists|middle: Seq<S>| #[trigger]
        narrowed(
            convolve,
            before,
            before.history_1.1,
            before.history_2.1,
            q,
            middle,
            after.history_1.1,
            after.history_2.1,
            after.narrow.1,
        )
    &&& demodulated(
        angle,
        before.prev.0,
        before.prev.1,
        after.narrow.0,
        after.narrow.1,
        after.demodulated,
    )
    &&& after.prev.0 == latest(before.prev.0, after.narrow.0)
    &&& after.prev.1 == latest(before.prev.1, after.narrow.1)
    &&& after.resampler == before.resampler.after(after.demodulated)
    &&& exists|flat: Seq<S>| #[trigger]
        resampled(dot, before.resampler, after.demodulated, flat) && flat.len() == count
            && smoothed(pole, before.last_out, flat, after.out.take(count))
    &&& after.last_out == latest(before.last_out, after.out.take(count))
}

impl<S: Copy> DSPFlow<S> {
    /// From a transfer to audio: decimate, demodulate, resample, de-emphasize,
    /// and say how many samples of audio that makes.
    pub fn process<
        F: Fn(&[S], &[S]) -> S + Copy,
        A: Fn(S, S, S, S) -> S,
        D: Fn(&[S], &[S]) -> S,
        P: Fn(S, S) -> S,
    >(&mut self, t: &Transfer<S>, convolve: F, angle: &A, dot: D, pole: &P) -> (count: usize)
        requires
            old(self).wf(),
            t.wf(),
            answerable(convolve, 27),
            answerable(convolve, 69),
            forall|a: S, b: S, c: S, d: S| #[trigger] call_requires(*angle, (a, b, c, d)),
            answerable(dot, (old(self)@.resampler.history.len() + 1) as nat),
            forall|a: S, b: S| #[trigger] call_requires(*pole, (a, b)),
        ensures
            final(self).wf(),
            flows(
                convolve,
                *angle,
                dot,
                *pole,
                old(self)@,
                t.i(),
                t.q(),
                final(self)@,
                count as int,
            ),
    {
        let ghost before = self@;
        self.decimate(t, convolve);
        let ghost cut = self@;
        self.demodulate(angle);
        let count: usize = self.resample(dot);
        self.deemphasize(count, pole);
        proof {
            assert(self@.history_1 == cut.history_1 && self@.history_2 == cut.history_2);
            assert(self@.narrow == cut.narrow);
            let middle_i = choose|middle: Seq<S>| #[trigger]
                narrowed(
                    convolve,
                    before,
                    before.history_1.0,
                    before.history_2.0,
                    t.i(),
                    middle,
                    cut.history_1.0,
                    cut.history_2.0,
                    cut.narrow.0,
                );
            assert(narrowed(
                convolve,
                before,
                before.history_1.0,
                before.history_2.0,
                t.i(),
                middle_i,
                self@.history_1.0,
                self@.history_2.0,
                self@.narrow.0,
            ));
            let middle_q = choose|middle: Seq<S>| #[trigger]
                narrowed(
                    convolve,
                    before,
                    before.history_1.1,
                    before.history_2.1,
                    t.q(),
                    middle,
                    cut.history_1.1,
                    cut.history_2.1,
                    cut.narrow.1,
                );
            assert(narrowed(
                convolve,
                before,
                before.history_1.1,
                before.history_2.1,
                t.q(),
                middle_q,
                self@.history_1.1,
                self@.history_2.1,
                self@.narrow.1,
            ));
        }
        count
    }
}

} // verus!
