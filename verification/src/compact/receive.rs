//! The receive chain of the compact radio, sample by sample: high-pass, average
//! by ten, discriminate, de-emphasize, average by five, and out to the speaker;
//! then the raw bytes to the spectrum.
//!
//! The arithmetic is handed in by the caller; here is what meets what, and what
//! is carried from one sample to the next.

use vstd::prelude::*;

use crate::compact::detectors::{Deemphasis, FmDiscriminator, IqDcBlocker};
use crate::dsp::{averaged, Decim, DecimView};
use crate::spmc::laws::push_all;
use crate::spmc::RingProducer;

verus! {

/// The first average: 2.4 MS/s become 240 kS/s, the lowest rate that still holds
/// a 200 kHz channel.
pub const IQ_DECIM: u32 = 10;

/// The second average: 240 kS/s become 48 kS/s.
pub const POST_DECIM: u32 = 5;

/// Slots of the speaker's ring.
pub const RING_SLOTS: usize = 16;

/// Samples in a block of it.
pub const RING_BLOCK: usize = 512;

/// Slots of the spectrum's ring.
pub const IQ_SLOTS: usize = 16;

/// Bytes in a block of it: one USB transfer.
pub const IQ_BLOCK: usize = 16384;

/// The arithmetic of the chain.
pub struct Detector<B, H, P, M, A, E, V> {
    /// A byte as a sample, centred.
    pub center: B,
    /// A sample, the one before and the output before, high-passed.
    pub highpass: H,
    /// The sum of two samples.
    pub sum: P,
    /// The mean of a sum of [`IQ_DECIM`].
    pub mean: M,
    /// A pair and the one before, as an angle.
    pub angle: A,
    /// A sample and the output before, de-emphasized.
    pub pole: E,
    /// The mean of a sum of [`POST_DECIM`], at the volume it is to be heard.
    pub heard: V,
}

impl<B, H, P, M, A, E, V> Detector<B, H, P, M, A, E, V> {
    /// Every step can be taken on every value.
    pub open spec fn total<S>(self) -> bool where
        B: Fn(u8) -> S,
        H: Fn(S, S, S) -> S,
        P: Fn(S, S) -> S,
        M: Fn(S) -> S,
        A: Fn(S, S, S, S) -> S,
        E: Fn(S, S) -> S,
        V: Fn(S) -> S,
     {
        &&& forall|b: u8| #[trigger] call_requires(self.center, (b,))
        &&& forall|a: S, b: S, c: S| #[trigger] call_requires(self.highpass, (a, b, c))
        &&& forall|a: S, b: S| #[trigger] call_requires(self.sum, (a, b))
        &&& forall|a: S| #[trigger] call_requires(self.mean, (a,))
        &&& forall|a: S, b: S, c: S, d: S| #[trigger] call_requires(self.angle, (a, b, c, d))
        &&& forall|a: S, b: S| #[trigger] call_requires(self.pole, (a, b))
        &&& forall|a: S| #[trigger] call_requires(self.heard, (a,))
    }
}

/// The chain.
pub struct Receiver<S: Copy> {
    highpass: IqDcBlocker<S>,
    decim: Decim<S, IQ_DECIM, POST_DECIM>,
    demod: FmDiscriminator<S>,
    deemph: Deemphasis<S>,
}

/// The state of a [`Receiver`].
pub struct ReceiverView<S> {
    /// The last sample of I and the high-pass filter's answer to it.
    pub high_i: (S, S),
    /// And of Q.
    pub high_q: (S, S),
    pub decim: DecimView<S>,
    /// The last pair that was discriminated.
    pub prev: (S, S),
    /// The last sample that was de-emphasized.
    pub last_out: S,
}

impl<S: Copy> View for Receiver<S> {
    type V = ReceiverView<S>;

    closed spec fn view(&self) -> ReceiverView<S> {
        ReceiverView {
            high_i: (self.highpass.i_blocker.x_prev, self.highpass.i_blocker.y_prev),
            high_q: (self.highpass.q_blocker.x_prev, self.highpass.q_blocker.y_prev),
            decim: self.decim@,
            prev: (self.demod.prev_i, self.demod.prev_q),
            last_out: self.deemph.state,
        }
    }
}

/// The chain behind silence.
pub open spec fn silent<S>(silence: S) -> ReceiverView<S> {
    ReceiverView {
        high_i: (silence, silence),
        high_q: (silence, silence),
        decim: DecimView {
            zero: silence,
            i_acc: silence,
            q_acc: silence,
            iq_n: 0,
            post_acc: silence,
            post_n: 0,
        },
        prev: (silence, silence),
        last_out: silence,
    }
}

impl<B, H, P, M, A, E, V> Detector<B, H, P, M, A, E, V> {
    /// A pair of bytes, high-passed: the state becomes that of the filters.
    pub open spec fn highpassed<S>(
        self,
        before: ReceiverView<S>,
        i: u8,
        q: u8,
        after: ReceiverView<S>,
    ) -> bool where B: Fn(u8) -> S, H: Fn(S, S, S) -> S {
        &&& call_ensures(self.center, (i,), after.high_i.0)
        &&& call_ensures(self.center, (q,), after.high_q.0)
        &&& call_ensures(
            self.highpass,
            (after.high_i.0, before.high_i.0, before.high_i.1),
            after.high_i.1,
        )
        &&& call_ensures(
            self.highpass,
            (after.high_q.0, before.high_q.0, before.high_q.1),
            after.high_q.1,
        )
    }

    /// The tenth pair is due: its means are discriminated against the pair before
    /// and de-emphasized.
    pub open spec fn detected<S>(self, before: ReceiverView<S>, after: ReceiverView<S>) -> bool where
        P: Fn(S, S) -> S,
        M: Fn(S) -> S,
        A: Fn(S, S, S, S) -> S,
        E: Fn(S, S) -> S,
     {
        &&& averaged(self.sum, self.mean, before.decim.i_acc, after.high_i.1, after.prev.0)
        &&& averaged(self.sum, self.mean, before.decim.q_acc, after.high_q.1, after.prev.1)
        &&& exists|demod: S|
            {
                &&& #[trigger] call_ensures(
                    self.angle,
                    (after.prev.0, after.prev.1, before.prev.0, before.prev.1),
                    demod,
                )
                &&& call_ensures(self.pole, (demod, before.last_out), after.last_out)
            }
    }

    /// What the chain may make of one pair of bytes: a sample for the speaker on
    /// every fiftieth, and nothing before.
    pub open spec fn steps<S>(
        self,
        before: ReceiverView<S>,
        i: u8,
        q: u8,
        after: ReceiverView<S>,
        out: Option<S>,
    ) -> bool where
        B: Fn(u8) -> S,
        H: Fn(S, S, S) -> S,
        P: Fn(S, S) -> S,
        M: Fn(S) -> S,
        A: Fn(S, S, S, S) -> S,
        E: Fn(S, S) -> S,
        V: Fn(S) -> S,
     {
        &&& self.highpassed(before, i, q, after)
        &&& if before.decim.iq_n + 1 < IQ_DECIM {
            &&& out is None
            &&& call_ensures(
                self.sum,
                (before.decim.i_acc, after.high_i.1),
                after.decim.i_acc,
            )
            &&& call_ensures(
                self.sum,
                (before.decim.q_acc, after.high_q.1),
                after.decim.q_acc,
            )
            &&& after.decim == (DecimView {
                i_acc: after.decim.i_acc,
                q_acc: after.decim.q_acc,
                iq_n: before.decim.iq_n + 1,
                ..before.decim
            })
            &&& after.prev == before.prev
            &&& after.last_out == before.last_out
        } else {
            let zero = before.decim.zero;
            &&& self.detected(before, after)
            &&& if before.decim.post_n + 1 < POST_DECIM {
                &&& out is None
                &&& call_ensures(
                    self.sum,
                    (before.decim.post_acc, after.last_out),
                    after.decim.post_acc,
                )
                &&& after.decim == (DecimView {
                    i_acc: zero,
                    q_acc: zero,
                    iq_n: 0,
                    post_acc: after.decim.post_acc,
                    post_n: before.decim.post_n + 1,
                    zero,
                })
            } else {
                &&& out is Some
                &&& averaged(
                    self.sum,
                    self.heard,
                    before.decim.post_acc,
                    after.last_out,
                    out->0,
                )
                &&& after.decim == (DecimView {
                    i_acc: zero,
                    q_acc: zero,
                    iq_n: 0,
                    post_acc: zero,
                    post_n: 0,
                    zero,
                })
            }
        }
    }

    /// What the chain may make of a series of pairs: `states` are its states
    /// before each and after the last.
    pub open spec fn runs<S>(
        self,
        bytes: Seq<u8>,
        states: Seq<ReceiverView<S>>,
        outs: Seq<Option<S>>,
    ) -> bool where
        B: Fn(u8) -> S,
        H: Fn(S, S, S) -> S,
        P: Fn(S, S) -> S,
        M: Fn(S) -> S,
        A: Fn(S, S, S, S) -> S,
        E: Fn(S, S) -> S,
        V: Fn(S) -> S,
     {
        let n = bytes.len() as int / 2;
        &&& states.len() == n + 1
        &&& outs.len() == n
        &&& forall|k: int|
            0 <= k < n ==> self.steps(
                states[k],
                bytes[2 * k],
                bytes[2 * k + 1],
                states[k + 1],
                #[trigger] outs[k],
            )
    }
}

/// The samples among the answers, in order.
pub open spec fn samples<S>(outs: Seq<Option<S>>) -> Seq<S>
    decreases outs.len(),
{
    if outs.len() == 0 {
        Seq::empty()
    } else {
        match outs.last() {
            Some(x) => samples(outs.drop_last()).push(x),
            None => samples(outs.drop_last()),
        }
    }
}

impl<S: Copy> Receiver<S> {
    /// Neither average has gathered a full sum.
    pub closed spec fn wf(&self) -> bool {
        self.decim.wf()
    }

    /// A chain behind silence.
    pub fn new(silence: S) -> (r: Self)
        ensures
            r.wf(),
            r@ == silent(silence),
    {
        Receiver {
            highpass: IqDcBlocker::new(silence),
            decim: Decim::new(silence),
            demod: FmDiscriminator::new(silence),
            deemph: Deemphasis::new(silence),
        }
    }

    /// Take in one pair of bytes.
    pub fn step<B, H, P, M, A, E, V>(
        &mut self,
        i: u8,
        q: u8,
        d: &Detector<B, H, P, M, A, E, V>,
    ) -> (out: Option<S>) where
        B: Fn(u8) -> S,
        H: Fn(S, S, S) -> S,
        P: Fn(S, S) -> S,
        M: Fn(S) -> S,
        A: Fn(S, S, S, S) -> S,
        E: Fn(S, S) -> S,
        V: Fn(S) -> S,

        requires
            old(self).wf(),
            d.total::<S>(),
        ensures
            final(self).wf(),
            d.steps(old(self)@, i, q, final(self)@, out),
    {
        let (i, q) = self.highpass.process((d.center)(i), (d.center)(q), &d.highpass);
        match self.decim.iq_decim(i, q, &d.sum, &d.mean) {
            None => None,
            Some((i, q)) => {
                let demod = self.demod.process(i, q, &d.angle);
                let audio = self.deemph.process(demod, &d.pole);
                self.decim.post_decim(audio, &d.sum, &d.heard)
            },
        }
    }

    /// Take in a transfer: every sample it completes goes to the speaker, and
    /// then the bytes to the spectrum, as they are. A consumer too slow for
    /// either is overrun, or loses what does not fit.
    pub fn receive<B, H, P, M, A, E, V>(
        &mut self,
        bytes: &[u8],
        d: &Detector<B, H, P, M, A, E, V>,
        speaker: &mut RingProducer<S, RING_SLOTS, RING_BLOCK>,
        spectrum: &mut RingProducer<u8, IQ_SLOTS, IQ_BLOCK>,
    ) where
        S: Default,
        B: Fn(u8) -> S,
        H: Fn(S, S, S) -> S,
        P: Fn(S, S) -> S,
        M: Fn(S) -> S,
        A: Fn(S, S, S, S) -> S,
        E: Fn(S, S) -> S,
        V: Fn(S) -> S,

        requires
            old(self).wf(),
            d.total::<S>(),
            old(speaker).wf(),
            old(spectrum).wf(),
            old(spectrum)@.fill == 0,
            old(speaker)@.ring.head + bytes@.len() < u64::MAX,
            old(spectrum)@.ring.head + 1 < u64::MAX,
        ensures
            final(self).wf(),
            final(speaker).wf(),
            final(spectrum).wf(),
            exists|states: Seq<ReceiverView<S>>, outs: Seq<Option<S>>|
                {
                    &&& #[trigger] d.runs(bytes@, states, outs)
                    &&& states[0] == old(self)@
                    &&& states.last() == final(self)@
                    &&& final(speaker)@ == push_all(
                        old(speaker)@,
                        samples(outs),
                        RING_BLOCK as nat,
                    )
                },
            final(spectrum)@ == old(spectrum)@.write(bytes@, IQ_BLOCK as nat).0,
    {
        let n: usize = bytes.len() / 2;
        let ghost start = speaker@;
        let ghost mut states = seq![self@];
        let ghost mut outs: Seq<Option<S>> = Seq::empty();
        let mut k: usize = 0;
        assert(bytes.len() == bytes@.len());
        while k < n
            invariant
                k <= n,
                n == bytes@.len() / 2,
                bytes@.len() <= usize::MAX,
                self.wf(),
                d.total::<S>(),
                speaker.wf(),
                start == old(speaker)@,
                start.ring.head + bytes@.len() < u64::MAX,
                speaker@.ring.head <= start.ring.head + k,
                states.len() == k + 1,
                states[0] == old(self)@,
                states[k as int] == self@,
                outs.len() == k,
                forall|j: int|
                    0 <= j < k ==> d.steps(
                        states[j],
                        bytes@[2 * j],
                        bytes@[2 * j + 1],
                        states[j + 1],
                        #[trigger] outs[j],
                    ),
                speaker@ == push_all(start, samples(outs), RING_BLOCK as nat),
            decreases n - k,
        {
            let out = self.step(bytes[2 * k], bytes[2 * k + 1], d);
            let ghost more = outs.push(out);
            assert(more.drop_last() =~= outs);
            if let Some(x) = out {
                assert(samples(more).drop_last() =~= samples(outs));
                assert(samples(more).last() == x);
                let _ = speaker.push(x);
            }
            proof {
                let longer = states.push(self@);
                assert forall|j: int| 0 <= j < k + 1 implies d.steps(
                    longer[j],
                    bytes@[2 * j],
                    bytes@[2 * j + 1],
                    longer[j + 1],
                    #[trigger] more[j],
                ) by {
                    if j < k {
                        assert(more[j] == outs[j]);
                    }
                }
                outs = more;
                states = longer;
            }
            k += 1;
        }
        let _ = spectrum.write(bytes);
        assert(d.runs(bytes@, states, outs));
    }
}

/// How many pairs the chain has taken in since it last put out a sample.
pub open spec fn gathered<S>(v: ReceiverView<S>) -> int {
    v.decim.post_n * IQ_DECIM + v.decim.iq_n
}

/// One sample for every fifty pairs, however they are cut into transfers: what
/// does not make up a sample is carried over.
pub proof fn one_sample_in_fifty<S, B, H, P, M, A, E, V>(
    d: Detector<B, H, P, M, A, E, V>,
    bytes: Seq<u8>,
    states: Seq<ReceiverView<S>>,
    outs: Seq<Option<S>>,
) where
    B: Fn(u8) -> S,
    H: Fn(S, S, S) -> S,
    P: Fn(S, S) -> S,
    M: Fn(S) -> S,
    A: Fn(S, S, S, S) -> S,
    E: Fn(S, S) -> S,
    V: Fn(S) -> S,

    requires
        d.runs(bytes, states, outs),
        0 <= states[0].decim.iq_n < IQ_DECIM,
        0 <= states[0].decim.post_n < POST_DECIM,
    ensures
        0 <= states.last().decim.iq_n < IQ_DECIM,
        0 <= states.last().decim.post_n < POST_DECIM,
        gathered(states[0]) + bytes.len() as int / 2 == 50 * samples(outs).len() + gathered(
            states.last(),
        ),
        samples(outs).len() == (gathered(states[0]) + bytes.len() as int / 2) / 50,
    decreases bytes.len(),
{
    let n = bytes.len() as int / 2;
    if n > 0 {
        let fewer = bytes.take(2 * (n - 1));
        let earlier = states.drop_last();
        let before = outs.drop_last();
        assert(fewer.len() as int / 2 == n - 1);
        assert forall|k: int| 0 <= k < n - 1 implies d.steps(
            earlier[k],
            fewer[2 * k],
            fewer[2 * k + 1],
            earlier[k + 1],
            #[trigger] before[k],
        ) by {
            assert(before[k] == outs[k]);
        }
        one_sample_in_fifty(d, fewer, earlier, before);
        assert(outs[n - 1] == outs.last());
        assert(d.steps(
            states[n - 1],
            bytes[2 * (n - 1)],
            bytes[2 * (n - 1) + 1],
            states[n],
            outs[n - 1],
        ));
    }
}

} // verus!
