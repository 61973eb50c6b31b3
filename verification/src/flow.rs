//! The wideband FM chain, from one USB transfer to one block of audio.
//!
//! 8192 samples of I and Q at 2.4 MHz are filtered and decimated by 4 to 2048 at
//! 600 kHz and by 2 to 1024 at 300 kHz, demodulated there, while the 200 kHz
//! channel still fits, resampled by 4/25 to 163 or 164 samples at 48 kHz, and
//! de-emphasized.

pub mod calls;
pub mod chain;
pub mod prepare;
pub mod receive;
pub mod stream;

use vstd::prelude::*;

use crate::dsp::stages::{demodulated, latest, smoothed, Deemphasis, Demodulation};
use crate::dsp::{answerable, answers, branch, DecimFIR, PolyphaseResampler, ResamplerView};
use crate::source::{CPAL_BLOCK, IQ_BLOCK, IQ_SLOTS};
use crate::spmc::laws::push_all;
use crate::spmc::RingProducer;

verus! {

/// Samples of I, and of Q, in a USB transfer.
pub const PAIRS: usize = 8192;

/// Samples between the two decimators.
pub const MIDDLE: usize = 2048;

/// Samples behind the second decimator.
pub const NARROW: usize = 1024;

/// One USB transfer, three ways: interleaved for the spectrum, and I and Q apart
/// for the decimators.
pub struct Transfer<S: Copy> {
    buf: [S; IQ_BLOCK],
    buf_i: [S; PAIRS],
    buf_q: [S; PAIRS],
}

impl<S: Copy> Transfer<S> {
    /// The interleaved samples.
    pub closed spec fn interleaved(&self) -> Seq<S> {
        self.buf@
    }

    /// The samples of I.
    pub closed spec fn i(&self) -> Seq<S> {
        self.buf_i@
    }

    /// The samples of Q.
    pub closed spec fn q(&self) -> Seq<S> {
        self.buf_q@
    }

    /// Both legs carry the same samples.
    pub open spec fn wf(&self) -> bool {
        &&& self.interleaved().len() == IQ_BLOCK
        &&& self.i().len() == PAIRS
        &&& self.q().len() == PAIRS
        &&& forall|k: int|
            0 <= k < PAIRS ==> #[trigger] self.i()[k] == self.interleaved()[2 * k]
        &&& forall|k: int|
            0 <= k < PAIRS ==> #[trigger] self.q()[k] == self.interleaved()[2 * k + 1]
    }

    /// Silence.
    pub fn new(silence: S) -> (t: Self)
        ensures
            t.wf(),
            forall|k: int| 0 <= k < IQ_BLOCK ==> #[trigger] t.interleaved()[k] == silence,
    {
        Transfer { buf: [silence; IQ_BLOCK], buf_i: [silence; PAIRS], buf_q: [silence; PAIRS] }
    }

    /// Put in pair `idx`.
    pub fn set(&mut self, idx: usize, i: S, q: S)
        requires
            old(self).wf(),
            idx < PAIRS,
        ensures
            final(self).wf(),
            final(self).interleaved() == old(self).interleaved().update(2 * idx, i).update(
                2 * idx + 1,
                q,
            ),
    {
        let ghost before = *self;
        self.buf[2 * idx] = i;
        self.buf[2 * idx + 1] = q;
        self.buf_i[idx] = i;
        self.buf_q[idx] = q;
        proof {
            assert forall|k: int| 0 <= k < PAIRS implies #[trigger] self.i()[k]
                == self.interleaved()[2 * k] by {
                assert(before.i()[k] == before.interleaved()[2 * k]);
            }
            assert forall|k: int| 0 <= k < PAIRS implies #[trigger] self.q()[k]
                == self.interleaved()[2 * k + 1] by {
                assert(before.q()[k] == before.interleaved()[2 * k + 1]);
            }
        }
    }

    /// The interleaved samples.
    pub fn block(&self) -> (b: &[S])
        ensures
            b@ == self.interleaved(),
    {
        self.buf.as_slice()
    }
}

/// The chain. The arithmetic on samples is handed in by the caller.
pub struct DSPFlow<S: Copy> {
    stage_1: DecimFIR<S, 8218, PAIRS, 27>,
    stage_2: DecimFIR<S, 2116, MIDDLE, 69>,
    demod: Demodulation<S>,
    resampler: PolyphaseResampler<S>,
    deemph: Deemphasis<S>,
    middle_i: Vec<S>,
    middle_q: Vec<S>,
    narrow_i: Vec<S>,
    narrow_q: Vec<S>,
    demodulated: Vec<S>,
    out: Vec<S>,
}

/// The state of a [`DSPFlow`].
pub struct FlowView<S> {
    pub taps_1: Seq<S>,
    pub taps_2: Seq<S>,
    /// The last samples of I and Q that went into the first stage.
    pub history_1: (Seq<S>, Seq<S>),
    /// And into the second.
    pub history_2: (Seq<S>, Seq<S>),
    /// The last sample of I and Q that was demodulated.
    pub prev: (S, S),
    pub resampler: ResamplerView<S>,
    /// The last sample of audio.
    pub last_out: S,
    /// What the second stage last put out.
    pub narrow: (Seq<S>, Seq<S>),
    /// What the demodulator last put out.
    pub demodulated: Seq<S>,
    /// What the resampler last put out; what lies behind is left over.
    pub out: Seq<S>,
}

impl<S: Copy> View for DSPFlow<S> {
    type V = FlowView<S>;

    closed spec fn view(&self) -> FlowView<S> {
        FlowView {
            taps_1: self.stage_1.taps@,
            taps_2: self.stage_2.taps@,
            history_1: (self.stage_1.buf_i@.take(26), self.stage_1.buf_q@.take(26)),
            history_2: (self.stage_2.buf_i@.take(68), self.stage_2.buf_q@.take(68)),
            prev: (self.demod.prev_i, self.demod.prev_q),
            resampler: self.resampler@,
            last_out: self.deemph.last_out,
            narrow: (self.narrow_i@, self.narrow_q@),
            demodulated: self.demodulated@,
            out: self.out@,
        }
    }
}

/// `out` is what a filter with a history may make of a block: one answer every
/// `step` samples.
pub open spec fn decimated<S, F: Fn(&[S], &[S]) -> S>(
    convolve: F,
    taps: Seq<S>,
    history: Seq<S>,
    block: Seq<S>,
    step: int,
    out: Seq<S>,
) -> bool {
    &&& out.len() == block.len() as int / step
    &&& forall|k: int|
        0 <= k < out.len() ==> answers(
            convolve,
            (history + block).subrange(k * step, k * step + taps.len()),
            taps,
            #[trigger] out[k],
        )
}

/// `out` is what the resampler may make of a block.
pub open spec fn resampled<S, F: Fn(&[S], &[S]) -> S>(
    dot: F,
    r: ResamplerView<S>,
    block: Seq<S>,
    out: Seq<S>,
) -> bool {
    &&& out.len() == r.outputs(block.len() as int)
    &&& forall|m: int|
        0 <= m < out.len() ==> answers(
            dot,
            r.branches[r.ticks(m) % 4],
            (r.history + block).subrange(r.position(m), r.position(m) + r.history.len() + 1),
            #[trigger] out[m],
        )
}

/// What one of I and Q becomes on its way through both stages.
pub open spec fn narrowed<S, F: Fn(&[S], &[S]) -> S>(
    convolve: F,
    before: FlowView<S>,
    history_1: Seq<S>,
    history_2: Seq<S>,
    block: Seq<S>,
    middle: Seq<S>,
    after_1: Seq<S>,
    after_2: Seq<S>,
    narrow: Seq<S>,
) -> bool {
    &&& decimated(convolve, before.taps_1, history_1, block, 4, middle)
    &&& decimated(convolve, before.taps_2, history_2, middle, 2, narrow)
    &&& after_1 == block.skip(block.len() - 26)
    &&& after_2 == middle.skip(middle.len() - 68)
}

impl<S> FlowView<S> {
    /// How far, in quarters of a sample, the next output lies in the next block.
    pub open spec fn carry(self) -> int {
        self.resampler.offset * 4 + self.resampler.phase
    }

    /// Four branches, 25 quarters of a sample from one output to the next, and
    /// the next output less than one such step into the next block.
    pub open spec fn wf(self) -> bool {
        &&& self.taps_1.len() == 27
        &&& self.taps_2.len() == 69
        &&& self.resampler.wf()
        &&& self.resampler.interp == 4
        &&& self.resampler.decim == 25
        &&& self.carry() < 25
        &&& self.resampler.history.len() + NARROW <= usize::MAX
        &&& self.narrow.0.len() == NARROW
        &&& self.narrow.1.len() == NARROW
        &&& self.demodulated.len() == NARROW
        &&& self.out.len() == CPAL_BLOCK
    }
}

impl<S: Copy> DSPFlow<S> {
    /// The buffers have their sizes, and no stage is out of step.
    pub closed spec fn wf(&self) -> bool {
        &&& self@.wf()
        &&& self.stage_1.wf()
        &&& self.stage_2.wf()
        &&& self.stage_1.offset == 0
        &&& self.stage_2.offset == 0
        &&& self.middle_i@.len() == MIDDLE
        &&& self.middle_q@.len() == MIDDLE
    }

    /// A silent chain with the given taps: those of the two decimators, and the
    /// prototype that is dealt out to the four branches of the resampler.
    pub fn new(taps_1: &[S; 27], taps_2: &[S; 69], prototype: &[S], silence: S) -> (f: Self)
        requires
            0 < prototype@.len(),
            prototype@.len() + NARROW <= usize::MAX,
        ensures
            f.wf(),
            f@.wf(),
            f@.taps_1 == taps_1@,
            f@.taps_2 == taps_2@,
            f@.history_1.0 == Seq::new(26, |k: int| silence),
            f@.history_1.1 == Seq::new(26, |k: int| silence),
            f@.history_2.0 == Seq::new(68, |k: int| silence),
            f@.history_2.1 == Seq::new(68, |k: int| silence),
            f@.resampler.branches == Seq::new(
                4,
                |b: int| branch(prototype@, 4, silence, b),
            ),
            f@.resampler.silence == silence,
            f@.carry() == 0,
            f@.prev == (silence, silence),
            f@.last_out == silence,
    {
        let f = DSPFlow {
            stage_1: DecimFIR::new(taps_1, silence),
            stage_2: DecimFIR::new(taps_2, silence),
            demod: Demodulation::new(silence),
            resampler: PolyphaseResampler::new(4, 25, prototype, silence),
            deemph: Deemphasis::new(silence),
            middle_i: repeated(silence, MIDDLE),
            middle_q: repeated(silence, MIDDLE),
            narrow_i: repeated(silence, NARROW),
            narrow_q: repeated(silence, NARROW),
            demodulated: repeated(silence, NARROW),
            out: repeated(silence, CPAL_BLOCK),
        };
        proof {
            assert(f@.history_1.0 =~= Seq::new(26, |k: int| silence));
            assert(f@.history_1.1 =~= Seq::new(26, |k: int| silence));
            assert(f@.history_2.0 =~= Seq::new(68, |k: int| silence));
            assert(f@.history_2.1 =~= Seq::new(68, |k: int| silence));
            assert(f@.resampler.branches =~= Seq::new(
                4,
                |b: int| branch(prototype@, 4, silence, b),
            ));
        }
        f
    }

    /// Bring a transfer down to the demodulator's rate. `convolve` applies the
    /// taps to a window of as many samples.
    pub fn decimate<F: Fn(&[S], &[S]) -> S + Copy>(&mut self, t: &Transfer<S>, convolve: F)
        requires
            old(self).wf(),
            t.wf(),
            answerable(convolve, 27),
            answerable(convolve, 69),
        ensures
            final(self).wf(),
            final(self)@.wf(),
            final(self)@.taps_1 == old(self)@.taps_1,
            final(self)@.taps_2 == old(self)@.taps_2,
            final(self)@.prev == old(self)@.prev,
            final(self)@.resampler == old(self)@.resampler,
            final(self)@.last_out == old(self)@.last_out,
            final(self)@.demodulated == old(self)@.demodulated,
            final(self)@.out == old(self)@.out,
            exists|middle: Seq<S>| #[trigger]
                narrowed(
                    convolve,
                    old(self)@,
                    old(self)@.history_1.0,
                    old(self)@.history_2.0,
                    t.i(),
                    middle,
                    final(self)@.history_1.0,
                    final(self)@.history_2.0,
                    final(self)@.narrow.0,
                ),
            exists|middle: Seq<S>| #[trigger]
                narrowed(
                    convolve,
                    old(self)@,
                    old(self)@.history_1.1,
                    old(self)@.history_2.1,
                    t.q(),
                    middle,
                    final(self)@.history_1.1,
                    final(self)@.history_2.1,
                    final(self)@.narrow.1,
                ),
    {
        let ghost before = self@;
        self.stage_1.read_to_buf(&t.buf_i, &t.buf_q);
        let ghost one_i = self.stage_1.buf_i@;
        let ghost one_q = self.stage_1.buf_q@;
        proof {
            lemma_windows(PAIRS as int, 4);
            lemma_windows(MIDDLE as int, 2);
            assert(one_i =~= before.history_1.0 + t.i());
            assert(one_q =~= before.history_1.1 + t.q());
        }
        self.stage_1.process(
            4,
            self.middle_i.as_mut_slice(),
            self.middle_q.as_mut_slice(),
            convolve,
        );
        let ghost middle_i = self.middle_i@;
        let ghost middle_q = self.middle_q@;
        let ghost two_i = self.stage_2.buf_i@;
        let ghost two_q = self.stage_2.buf_q@;
        proof {
            assert(decimated(convolve, before.taps_1, before.history_1.0, t.i(), 4, middle_i));
            assert(decimated(convolve, before.taps_1, before.history_1.1, t.q(), 4, middle_q));
            assert(self.stage_1.buf_i@.take(26) =~= t.i().skip(PAIRS - 26));
            assert(self.stage_1.buf_q@.take(26) =~= t.q().skip(PAIRS - 26));
        }
        let ghost history_1 = (self.stage_1.buf_i@.take(26), self.stage_1.buf_q@.take(26));
        let mut k: usize = 0;
        while k < MIDDLE
            invariant
                k <= MIDDLE,
                self.middle_i@ == middle_i,
                self.middle_q@ == middle_q,
                middle_i.len() == MIDDLE,
                middle_q.len() == MIDDLE,
                two_i.len() == 2116,
                two_q.len() == 2116,
                self.stage_2.taps@ == before.taps_2,
                self.stage_2.offset == 0,
                self.stage_1.offset == 0,
                self.stage_1.wf(),
                self.stage_1.taps@ == before.taps_1,
                self.stage_1.buf_i@.take(26) == history_1.0,
                self.stage_1.buf_q@.take(26) == history_1.1,
                self.demod.prev_i == before.prev.0,
                self.demod.prev_q == before.prev.1,
                self.resampler@ == before.resampler,
                self.deemph.last_out == before.last_out,
                self.demodulated@ == before.demodulated,
                self.demodulated@.len() == NARROW,
                self.out@ == before.out,
                self.narrow_i@.len() == NARROW,
                self.narrow_q@.len() == NARROW,
                self.stage_2.buf_i@.len() == 2116,
                self.stage_2.buf_q@.len() == 2116,
                forall|j: int|
                    0 <= j < 2116 ==> #[trigger] self.stage_2.buf_i@[j] == if 68 <= j < 68 + k {
                        middle_i[j - 68]
                    } else {
                        two_i[j]
                    },
                forall|j: int|
                    0 <= j < 2116 ==> #[trigger] self.stage_2.buf_q@[j] == if 68 <= j < 68 + k {
                        middle_q[j - 68]
                    } else {
                        two_q[j]
                    },
            decreases MIDDLE - k,
        {
            self.stage_2.set_iq(68 + k, self.middle_i[k], self.middle_q[k]);
            k += 1;
        }
        proof {
            assert(self.stage_2.buf_i@ =~= before.history_2.0 + middle_i);
            assert(self.stage_2.buf_q@ =~= before.history_2.1 + middle_q);
        }
        self.stage_2.process(
            2,
            self.narrow_i.as_mut_slice(),
            self.narrow_q.as_mut_slice(),
            convolve,
        );
        proof {
            assert(decimated(
                convolve,
                before.taps_2,
                before.history_2.0,
                middle_i,
                2,
                self.narrow_i@,
            ));
            assert(decimated(
                convolve,
                before.taps_2,
                before.history_2.1,
                middle_q,
                2,
                self.narrow_q@,
            ));
            assert(self.stage_2.buf_i@.take(68) =~= middle_i.skip(MIDDLE - 68));
            assert(self.stage_2.buf_q@.take(68) =~= middle_q.skip(MIDDLE - 68));
            assert(narrowed(
                convolve,
                before,
                before.history_1.0,
                before.history_2.0,
                t.i(),
                middle_i,
                self@.history_1.0,
                self@.history_2.0,
                self@.narrow.0,
            ));
            assert(narrowed(
                convolve,
                before,
                before.history_1.1,
                before.history_2.1,
                t.q(),
                middle_q,
                self@.history_1.1,
                self@.history_2.1,
                self@.narrow.1,
            ));
        }
    }

    /// Demodulate what was decimated. `angle` takes a sample and the one before.
    pub fn demodulate<A: Fn(S, S, S, S) -> S>(&mut self, angle: &A)
        requires
            old(self).wf(),
            forall|a: S, b: S, c: S, d: S| #[trigger] call_requires(*angle, (a, b, c, d)),
        ensures
            final(self).wf(),
            final(self)@.wf(),
            demodulated(
                *angle,
                old(self)@.prev.0,
                old(self)@.prev.1,
                old(self)@.narrow.0,
                old(self)@.narrow.1,
                final(self)@.demodulated,
            ),
            final(self)@ == (FlowView {
                prev: (
                    latest(old(self)@.prev.0, old(self)@.narrow.0),
                    latest(old(self)@.prev.1, old(self)@.narrow.1),
                ),
                demodulated: final(self)@.demodulated,
                ..old(self)@
            }),
    {
        self.demod.process(
            self.narrow_i.as_slice(),
            self.narrow_q.as_slice(),
            self.demodulated.as_mut_slice(),
            angle,
        );
    }

    /// Bring the demodulated signal to the audio rate, and say how many samples
    /// that makes. `dot` applies a branch to a window of as many samples.
    pub fn resample<F: Fn(&[S], &[S]) -> S>(&mut self, dot: F) -> (count: usize)
        requires
            old(self).wf(),
            answerable(dot, (old(self)@.resampler.history.len() + 1) as nat),
        ensures
            final(self).wf(),
            final(self)@.wf(),
            final(self)@ == (FlowView {
                resampler: old(self)@.resampler.after(old(self)@.demodulated),
                out: final(self)@.out,
                ..old(self)@
            }),
            163 <= count <= 164,
            25 * count == 4 * NARROW + final(self)@.carry() - old(self)@.carry(),
            resampled(
                dot,
                old(self)@.resampler,
                old(self)@.demodulated,
                final(self)@.out.take(count as int),
            ),
            forall|m: int|
                count <= m < CPAL_BLOCK ==> final(self)@.out[m] == old(self)@.out[m],
    {
        let ghost before = self@;
        let count: usize = self.resampler.process(
            self.demodulated.as_slice(),
            self.out.as_mut_slice(),
            dot,
        );
        proof {
            lemma_count(before.resampler, before.demodulated);
            let out = self@.out.take(count as int);
            assert forall|m: int| 0 <= m < out.len() implies answers(
                dot,
                before.resampler.branches[before.resampler.ticks(m) % 4],
                (before.resampler.history + before.demodulated).subrange(
                    before.resampler.position(m),
                    before.resampler.position(m) + before.resampler.history.len() + 1,
                ),
                #[trigger] out[m],
            ) by {
                assert(out[m] == self@.out[m]);
            }
        }
        count
    }

    /// Undo the emphasis that the broadcaster gave the treble, on the live
    /// samples only. `pole` takes a sample and the output before.
    pub fn deemphasize<P: Fn(S, S) -> S>(&mut self, count: usize, pole: &P)
        requires
            old(self).wf(),
            count <= CPAL_BLOCK,
            forall|a: S, b: S| #[trigger] call_requires(*pole, (a, b)),
        ensures
            final(self).wf(),
            final(self)@.wf(),
            smoothed(
                *pole,
                old(self)@.last_out,
                old(self)@.out.take(count as int),
                final(self)@.out.take(count as int),
            ),
            final(self)@.out.skip(count as int) == old(self)@.out.skip(count as int),
            final(self)@ == (FlowView {
                last_out: latest(old(self)@.last_out, final(self)@.out.take(count as int)),
                out: final(self)@.out,
                ..old(self)@
            }),
    {
        self.deemph.process(self.out.as_mut_slice(), count, pole);
    }

    /// The audio; only the samples counted by [`resample`](Self::resample) are
    /// live.
    pub fn out(&self) -> (x: &[S])
        ensures
            x@ == self@.out,
    {
        self.out.as_slice()
    }
}

/// A block that its step divides has as many windows as it has steps.
proof fn lemma_windows(n: int, step: int)
    requires
        (n == PAIRS && step == 4) || (n == MIDDLE && step == 2),
    ensures
        crate::dsp::windows(n, 0, step) == n / step,
        n / step * step == n,
{
}

/// A block makes 163 or 164 samples, and the next output stays within one step
/// of the next block.
proof fn lemma_count<S>(r: ResamplerView<S>, input: Seq<S>)
    requires
        r.wf(),
        r.interp == 4,
        r.decim == 25,
        r.offset * 4 + r.phase < 25,
        input.len() == NARROW,
    ensures
        163 <= r.outputs(NARROW as int) <= 164,
        ({
            let next = r.after(input);
            let carry = next.offset * 4 + next.phase;
            &&& next.wf()
            &&& 0 <= carry < 25
            &&& 25 * r.outputs(NARROW as int) == 4 * NARROW + carry - (r.offset * 4 + r.phase)
            &&& next.interp == 4
            &&& next.decim == 25
        }),
{
    let c = r.outputs(NARROW as int);
    let next = r.after(input);
    assert(r.ticks(c) == r.phase + c * 25);
    assert(next.phase == r.ticks(c) % 4);
    assert(next.offset == r.offset + r.ticks(c) / 4 - NARROW);
}

/// No audio is gained or lost: however many transfers have been taken, the
/// samples made are those that fit, rounded up. If that has held for `made`
/// samples and `blocks` transfers, it holds after the next one.
pub proof fn audio_rate_is_exact<S>(f: FlowView<S>, demod: Seq<S>, made: int, blocks: int)
    requires
        f.wf(),
        demod.len() == NARROW,
        blocks >= 0,
        25 * made == 4 * NARROW * blocks + f.carry(),
    ensures
        ({
            let count = f.resampler.outputs(NARROW as int);
            let next = FlowView { resampler: f.resampler.after(demod), ..f };
            &&& 25 * (made + count) == 4 * NARROW * (blocks + 1) + next.carry()
            &&& next.wf()
            &&& made == (4 * NARROW * blocks + 24) / 25
            &&& made == (PAIRS * blocks + 49) / 50
        }),
{
    lemma_count(f.resampler, demod);
    assert(4 * NARROW * blocks == 4096 * blocks);
    assert(4 * NARROW * (blocks + 1) == 4096 * blocks + 4096);
    assert(PAIRS * blocks == 8192 * blocks);
}

/// Hand the audio to the speaker, one sample after the other, and the transfer
/// to the spectrum, all at once. A consumer too slow for either is overrun, or
/// loses what does not fit; the radio never waits for one.
pub fn deliver<S: Copy + Default>(
    audio: &[S],
    count: usize,
    transfer: &Transfer<S>,
    speaker: &mut RingProducer<S, IQ_SLOTS, CPAL_BLOCK>,
    spectrum: &mut RingProducer<S, IQ_SLOTS, IQ_BLOCK>,
)
    requires
        count <= audio@.len(),
        old(speaker).wf(),
        old(spectrum).wf(),
        old(spectrum)@.fill == 0,
        old(speaker)@.ring.head + count < u64::MAX,
        old(spectrum)@.ring.head + 1 < u64::MAX,
    ensures
        final(speaker).wf(),
        final(spectrum).wf(),
        final(speaker)@ == push_all(
            old(speaker)@,
            audio@.take(count as int),
            CPAL_BLOCK as nat,
        ),
        final(spectrum)@ == old(spectrum)@.write(transfer.interleaved(), IQ_BLOCK as nat).0,
{
    let ghost start = speaker@;
    let mut k: usize = 0;
    assert(audio@.take(0) =~= Seq::<S>::empty());
    while k < count
        invariant
            k <= count,
            count <= audio@.len(),
            speaker.wf(),
            start.ring.head + count < u64::MAX,
            speaker@.ring.head <= start.ring.head + k,
            speaker@ == push_all(start, audio@.take(k as int), CPAL_BLOCK as nat),
        decreases count - k,
    {
        proof {
            assert(audio@.take(k + 1).drop_last() =~= audio@.take(k as int));
            assert(audio@.take(k + 1).last() == audio@[k as int]);
        }
        let _ = speaker.push(audio[k]);
        k += 1;
    }
    let _ = spectrum.write(transfer.block());
}

/// `n` times the same sample.
fn repeated<S: Copy>(x: S, n: usize) -> (v: Vec<S>)
    ensures
        v@ == Seq::new(n as nat, |i: int| x),
{
    let mut v: Vec<S> = Vec::with_capacity(n);
    while v.len() < n
        invariant
            v.len() <= n,
            forall|i: int| 0 <= i < v.len() ==> v@[i] == x,
        decreases n - v.len(),
    {
        v.push(x);
    }
    assert(v@ =~= Seq::new(n as nat, |i: int| x));
    v
}

} // verus!
