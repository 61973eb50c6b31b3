//! What a transfer goes through, pair by pair, and where it ends up.

use vstd::prelude::*;

use crate::dsp::stages::{before, demodulated, turned, IqDcBlocker, Xlator};
use crate::flow::chain::flows;
use crate::flow::prepare::{prepare, Front, Passage};
use crate::flow::receive::{Back, Receiver};
use crate::flow::{deliver, resampled, DSPFlow, Transfer};
use crate::source::{CPAL_BLOCK, IQ_BLOCK, IQ_SLOTS};
use crate::spmc::calls::{pushes_follow_one_another, written};
use crate::spmc::RingProducer;

verus! {

/// A pair that is put in stands on both legs in its place, and interleaved with I
/// first; no other pair changes.
pub proof fn a_pair_has_its_place<S: Copy>(t: &mut Transfer<S>, idx: usize, i: S, q: S, k: int)
    requires
        old(t).wf(),
        idx < 8192,
        call_ensures(Transfer::<S>::set, (t, idx, i, q), ()),
        0 <= k < 8192,
    ensures
        final(t).i()[idx as int] == i,
        final(t).q()[idx as int] == q,
        final(t).interleaved()[2 * idx] == i,
        final(t).interleaved()[2 * idx + 1] == q,
        k != idx ==> final(t).i()[k] == old(t).i()[k] && final(t).q()[k] == old(t).q()[k],
        final(t).interleaved()[2 * k] == final(t).i()[k],
        final(t).interleaved()[2 * k + 1] == final(t).q()[k],
{
    assert(final(t).i()[idx as int] == final(t).interleaved()[2 * idx]);
    assert(final(t).q()[idx as int] == final(t).interleaved()[2 * idx + 1]);
    assert(final(t).i()[k] == final(t).interleaved()[2 * k]);
    assert(final(t).q()[k] == final(t).interleaved()[2 * k + 1]);
    assert(old(t).i()[k] == old(t).interleaved()[2 * k]);
    assert(old(t).q()[k] == old(t).interleaved()[2 * k + 1]);
}

/// A new chain has its taps, has heard only silence, and starts with the first sample
/// on the first branch: four outputs for every twenty-five samples.
pub proof fn new_chain_is_silent<S: Copy>(
    taps_1: &[S; 27],
    taps_2: &[S; 69],
    prototype: &[S],
    silence: S,
    f: DSPFlow<S>,
    b: int,
    j: int,
)
    requires
        call_ensures(DSPFlow::<S>::new, (taps_1, taps_2, prototype, silence), f),
        0 <= b < 4,
        0 <= j < f@.resampler.branches[b].len(),
    ensures
        f@.taps_1 == taps_1@,
        f@.taps_2 == taps_2@,
        forall|k: int|
            0 <= k < 26 ==> f@.history_1.0[k] == silence && f@.history_1.1[k] == silence,
        forall|k: int|
            0 <= k < 68 ==> f@.history_2.0[k] == silence && f@.history_2.1[k] == silence,
        f@.prev.0 == silence,
        f@.prev.1 == silence,
        f@.last_out == silence,
        f@.resampler.interp == 4,
        f@.resampler.decim == 25,
        f@.resampler.phase == 0,
        f@.resampler.offset == 0,
        f@.resampler.branches.len() == 4,
        4 * j + b < prototype@.len() ==> f@.resampler.branches[b][j] == prototype@[4 * j + b],
        4 * j + b >= prototype@.len() ==> f@.resampler.branches[b][j] == silence,
{
}

/// What pair `k` goes through: its two bytes are centred, I first; each leg has its
/// offset taken off, and the offset follows what is left; the pair is turned by the
/// phase as it stands, and lands in its place. The phase then moves on by the step,
/// and after every 512th pair it is corrected.
pub open spec fn pair_passes<S, C, B, L, G, J, M, U, A>(
    front: Front<B, L, G, J, M, U, A>,
    bytes: Seq<u8>,
    delta: C,
    since: int,
    p: Passage<S, C>,
    out: (S, S),
    k: int,
) -> bool where
    B: Fn(u8) -> S,
    L: Fn(S, S) -> S,
    G: Fn(S, S) -> S,
    J: Fn(S, S) -> C,
    M: Fn(C, C) -> C,
    U: Fn(C) -> C,
    A: Fn(C) -> (S, S),
 {
    &&& call_ensures(front.center, (bytes[2 * k],), p.i[k])
    &&& call_ensures(front.center, (bytes[2 * k + 1],), p.q[k])
    &&& call_ensures(front.less, (p.i[k], p.offsets_i[k]), p.blocked_i[k])
    &&& call_ensures(front.less, (p.q[k], p.offsets_q[k]), p.blocked_q[k])
    &&& call_ensures(front.integrate, (p.offsets_i[k], p.blocked_i[k]), p.offsets_i[k + 1])
    &&& call_ensures(front.integrate, (p.offsets_q[k], p.blocked_q[k]), p.offsets_q[k + 1])
    &&& call_ensures(front.join, (p.blocked_i[k], p.blocked_q[k]), p.x[k])
    &&& call_ensures(front.times, (p.x[k], p.phases[k]), p.y[k])
    &&& call_ensures(front.part, (p.y[k],), out)
    &&& (since + k + 1) % 512 != 0 ==> call_ensures(
        front.times,
        (p.phases[k], delta),
        p.phases[k + 1],
    )
    &&& (since + k + 1) % 512 == 0 ==> exists|moved: C|
        #[trigger] call_ensures(front.times, (p.phases[k], delta), moved) && call_ensures(
            front.correct,
            (moved,),
            p.phases[k + 1],
        )
}

/// Every pair of a transfer passes so, each stage where it was before the transfer, and
/// leaves them where the next transfer finds them. What the bytes do not reach stays.
pub proof fn pairs_pass_in_order<S: Copy, C: Copy, B, L, G, J, M, U, A>(
    bytes: &[u8],
    blocker: &mut IqDcBlocker<S>,
    xlator: &mut Xlator<C>,
    transfer: &mut Transfer<S>,
    front: Front<B, L, G, J, M, U, A>,
) where
    B: Fn(u8) -> S,
    L: Fn(S, S) -> S,
    G: Fn(S, S) -> S,
    J: Fn(S, S) -> C,
    M: Fn(C, C) -> C,
    U: Fn(C) -> C,
    A: Fn(C) -> (S, S),

    requires
        call_ensures(
            prepare::<S, C, B, L, G, J, M, U, A>,
            (bytes, blocker, xlator, transfer, &front),
            (),
        ),
    ensures
        ({
            let n = bytes@.len() as int / 2;
            &&& final(xlator).delta == old(xlator).delta
            &&& final(xlator).n == (old(xlator).n + n) % 512
            &&& forall|j: int|
                n <= j < 8192 ==> #[trigger] final(transfer).i()[j] == old(transfer).i()[j]
            &&& forall|j: int|
                n <= j < 8192 ==> #[trigger] final(transfer).q()[j] == old(transfer).q()[j]
            &&& exists|p: Passage<S, C>|
                {
                    &&& #[trigger] p.phases.len() == n + 1
                    &&& p.offsets_i.len() == n + 1
                    &&& p.offsets_q.len() == n + 1
                    &&& p.offsets_i[0] == old(blocker).i_blocker.offset
                    &&& p.offsets_q[0] == old(blocker).q_blocker.offset
                    &&& p.phases[0] == old(xlator).phase
                    &&& p.offsets_i[n] == final(blocker).i_blocker.offset
                    &&& p.offsets_q[n] == final(blocker).q_blocker.offset
                    &&& p.phases[n] == final(xlator).phase
                    &&& forall|k: int|
                        0 <= k < n ==> #[trigger] pair_passes(
                            front,
                            bytes@,
                            old(xlator).delta,
                            old(xlator).n as int,
                            p,
                            (final(transfer).i()[k], final(transfer).q()[k]),
                            k,
                        )
                }
        }),
{
    let n = bytes@.len() as int / 2;
    let p = choose|p: Passage<S, C>|
        {
            &&& #[trigger] front.passes(
                bytes@,
                old(xlator).delta,
                old(xlator).n as int,
                p,
                final(transfer).i(),
                final(transfer).q(),
            )
            &&& p.offsets_i[0] == old(blocker).i_blocker.offset
            &&& p.offsets_q[0] == old(blocker).q_blocker.offset
            &&& p.phases[0] == old(xlator).phase
            &&& p.offsets_i.last() == final(blocker).i_blocker.offset
            &&& p.offsets_q.last() == final(blocker).q_blocker.offset
            &&& p.phases.last() == final(xlator).phase
        };
    assert(p.phases.len() == n + 1);
    assert forall|k: int| 0 <= k < n implies #[trigger] pair_passes(
        front,
        bytes@,
        old(xlator).delta,
        old(xlator).n as int,
        p,
        (final(transfer).i()[k], final(transfer).q()[k]),
        k,
    ) by {
        assert(turned(
            front.times,
            front.correct,
            old(xlator).delta,
            old(xlator).n + k,
            p.phases[k],
            p.phases[k + 1],
        ));
        assert(call_ensures(front.center, (bytes@[2 * k],), p.i[k]));
        assert(call_ensures(front.center, (bytes@[2 * k + 1],), p.q[k]));
        assert(call_ensures(front.less, (p.i[k], p.offsets_i[k]), p.blocked_i[k]));
        assert(call_ensures(front.less, (p.q[k], p.offsets_q[k]), p.blocked_q[k]));
        assert(call_ensures(
            front.integrate,
            (p.offsets_i[k], p.blocked_i[k]),
            p.offsets_i[k + 1],
        ));
        assert(call_ensures(
            front.integrate,
            (p.offsets_q[k], p.blocked_q[k]),
            p.offsets_q[k + 1],
        ));
        assert(call_ensures(front.join, (p.blocked_i[k], p.blocked_q[k]), p.x[k]));
        assert(call_ensures(front.times, (p.x[k], p.phases[k]), p.y[k]));
        assert(call_ensures(
            front.part,
            (p.y[k],),
            (final(transfer).i()[k], final(transfer).q()[k]),
        ));
    }
}

/// The audio of a transfer follows what the speaker's ring was given before, sample by
/// sample and none left out, and the transfer itself becomes the next block of the
/// spectrum's ring. Neither ring holds the radio up.
pub proof fn audio_and_band_are_handed_on<S: Copy + Default>(
    audio: &[S],
    count: usize,
    transfer: &Transfer<S>,
    speaker: &mut RingProducer<S, IQ_SLOTS, CPAL_BLOCK>,
    spectrum: &mut RingProducer<S, IQ_SLOTS, IQ_BLOCK>,
)
    requires
        count <= audio@.len(),
        transfer.wf(),
        old(speaker).wf(),
        old(spectrum).wf(),
        !old(speaker)@.blocking,
        !old(spectrum)@.blocking,
        call_ensures(deliver::<S>, (audio, count, transfer, speaker, spectrum), ()),
    ensures
        written(final(speaker)@) == written(old(speaker)@) + audio@.take(count as int),
        final(spectrum)@.ring.published == old(spectrum)@.ring.published.push(
            transfer.interleaved(),
        ),
        final(spectrum)@.ring.head == old(spectrum)@.ring.head + 1,
        final(speaker)@.ring.cursors == old(speaker)@.ring.cursors,
        final(spectrum)@.ring.cursors == old(spectrum)@.ring.cursors,
{
    pushes_follow_one_another(
        old(speaker)@,
        audio@.take(count as int),
        IQ_SLOTS as nat,
        CPAL_BLOCK as nat,
    );
    let p = old(spectrum)@;
    vstd::arithmetic::div_mod::lemma_mod_bound(p.ring.head as int, IQ_SLOTS as int);
}

/// A transfer that is received: the translator shifts by the 350 kHz that the tuner is
/// parked below the station's span and the station's own distance, with another turn
/// only where that is another shift; the pairs are prepared, made into audio, and both
/// handed on.
pub proof fn station_is_brought_to_the_middle<
    S: Copy + Default,
    C: Copy,
    B,
    L,
    G,
    J,
    M,
    U,
    Q,
    T,
    F,
    A,
    D,
    P,
>(
    r: &mut Receiver<S, C>,
    bytes: &[u8],
    offset: i64,
    front: Front<B, L, G, J, M, U, Q>,
    back: Back<T, F, A, D, P>,
    speaker: &mut RingProducer<S, IQ_SLOTS, CPAL_BLOCK>,
    spectrum: &mut RingProducer<S, IQ_SLOTS, IQ_BLOCK>,
) where
    B: Fn(u8) -> S,
    L: Fn(S, S) -> S,
    G: Fn(S, S) -> S,
    J: Fn(S, S) -> C,
    M: Fn(C, C) -> C,
    U: Fn(C) -> C,
    Q: Fn(C) -> (S, S),
    T: Fn(i64) -> C,
    F: Fn(&[S], &[S]) -> S + Copy,
    A: Fn(S, S, S, S) -> S,
    D: Fn(&[S], &[S]) -> S + Copy,
    P: Fn(S, S) -> S,

    requires
        offset + 350_000 <= i64::MAX,
        old(speaker).wf(),
        old(spectrum).wf(),
        !old(speaker)@.blocking,
        !old(spectrum)@.blocking,
        call_ensures(
            Receiver::<S, C>::receive::<B, L, G, J, M, U, Q, T, F, A, D, P>,
            (r, bytes, offset, &front, &back, speaker, spectrum),
            (),
        ),
    ensures
        final(r).shift == 350_000 + offset,
        old(r).shift == 350_000 + offset ==> final(r).xlator.delta == old(r).xlator.delta,
        old(r).shift != 350_000 + offset ==> call_ensures(
            back.turn,
            (final(r).shift,),
            final(r).xlator.delta,
        ),
        front.prepares(
            bytes@,
            (
                old(r).blocker,
                Xlator {
                    phase: old(r).xlator.phase,
                    delta: final(r).xlator.delta,
                    n: old(r).xlator.n,
                },
                old(r).transfer,
            ),
            (final(r).blocker, final(r).xlator, final(r).transfer),
        ),
        exists|count: int|
            {
                &&& 0 <= count <= final(r).flow@.out.len()
                &&& #[trigger] flows(
                    back.convolve,
                    back.angle,
                    back.dot,
                    back.pole,
                    old(r).flow@,
                    final(r).transfer.i(),
                    final(r).transfer.q(),
                    final(r).flow@,
                    count,
                )
                &&& written(final(speaker)@) == written(old(speaker)@)
                    + final(r).flow@.out.take(count)
            },
        final(spectrum)@.ring.published == old(spectrum)@.ring.published.push(
            final(r).transfer.interleaved(),
        ),
{
    let count = choose|count: int|
        {
            &&& #[trigger] flows(
                back.convolve,
                back.angle,
                back.dot,
                back.pole,
                old(r).flow@,
                final(r).transfer.i(),
                final(r).transfer.q(),
                final(r).flow@,
                count,
            )
            &&& final(speaker)@ == crate::spmc::laws::push_all(
                old(speaker)@,
                final(r).flow@.out.take(count),
                CPAL_BLOCK as nat,
            )
        };
    pushes_follow_one_another(
        old(speaker)@,
        final(r).flow@.out.take(count),
        IQ_SLOTS as nat,
        CPAL_BLOCK as nat,
    );
    let p = old(spectrum)@;
    vstd::arithmetic::div_mod::lemma_mod_bound(p.ring.head as int, IQ_SLOTS as int);
}

/// A new receiver has heard only silence and stands at the beginning of its turn.
pub proof fn new_receiver_is_silent<S: Copy, C: Copy>(
    flow: DSPFlow<S>,
    silence: S,
    one: C,
    shift: i64,
    delta: C,
    r: Receiver<S, C>,
)
    requires
        call_ensures(Receiver::<S, C>::new, (flow, silence, one, shift, delta), r),
    ensures
        r.flow == flow,
        r.blocker.i_blocker.offset == silence,
        r.blocker.q_blocker.offset == silence,
        r.xlator.phase == one,
        r.xlator.delta == delta,
        r.xlator.n == 0,
        r.shift == shift,
        forall|k: int| 0 <= k < 16384 ==> #[trigger] r.transfer.interleaved()[k] == silence,
{
}

/// A new transfer is silent; a transfer and a chain hand out what they hold.
pub proof fn what_is_held_is_handed_out<S: Copy>(
    silence: S,
    fresh: Transfer<S>,
    t: &Transfer<S>,
    b: &[S],
    f: &DSPFlow<S>,
    x: &[S],
    k: int,
)
    requires
        call_ensures(Transfer::<S>::new, (silence,), fresh),
        call_ensures(Transfer::<S>::block, (t,), b),
        call_ensures(DSPFlow::<S>::out, (f,), x),
        0 <= k < 8192,
    ensures
        fresh.interleaved()[2 * k] == silence,
        fresh.interleaved()[2 * k + 1] == silence,
        fresh.i()[k] == silence,
        fresh.q()[k] == silence,
        b@ == t.interleaved(),
        x@ == f@.out,
{
    assert(fresh.i()[k] == fresh.interleaved()[2 * k]);
    assert(fresh.q()[k] == fresh.interleaved()[2 * k + 1]);
}

/// Decimating leaves the demodulator and what follows it alone, and keeps the end of the
/// transfer for the next.
pub proof fn decimating_keeps_the_rest<S: Copy, F: Fn(&[S], &[S]) -> S + Copy>(
    f: &mut DSPFlow<S>,
    t: &Transfer<S>,
    convolve: F,
)
    requires
        call_ensures(DSPFlow::<S>::decimate::<F>, (f, t, convolve), ()),
    ensures
        final(f)@.prev == old(f)@.prev,
        final(f)@.resampler == old(f)@.resampler,
        final(f)@.last_out == old(f)@.last_out,
        final(f)@.taps_1 == old(f)@.taps_1,
        final(f)@.taps_2 == old(f)@.taps_2,
        final(f)@.history_1.0 == t.i().skip(t.i().len() - 26),
        final(f)@.history_1.1 == t.q().skip(t.q().len() - 26),
{
}

/// Demodulating holds every decimated pair against the one before it, the first against
/// the last of the transfer before, and leaves the rest alone.
pub proof fn demodulating_compares_neighbours<S: Copy, A: Fn(S, S, S, S) -> S>(
    f: &mut DSPFlow<S>,
    angle: A,
    k: int,
)
    requires
        old(f)@.wf(),
        call_ensures(DSPFlow::<S>::demodulate::<A>, (f, &angle), ()),
        0 <= k < 1024,
    ensures
        k == 0 ==> call_ensures(
            angle,
            (old(f)@.narrow.0[0], old(f)@.narrow.1[0], old(f)@.prev.0, old(f)@.prev.1),
            final(f)@.demodulated[0],
        ),
        k > 0 ==> call_ensures(
            angle,
            (
                old(f)@.narrow.0[k],
                old(f)@.narrow.1[k],
                old(f)@.narrow.0[k - 1],
                old(f)@.narrow.1[k - 1],
            ),
            final(f)@.demodulated[k],
        ),
        final(f)@.prev.0 == old(f)@.narrow.0[1023],
        final(f)@.prev.1 == old(f)@.narrow.1[1023],
        final(f)@.narrow == old(f)@.narrow,
        final(f)@.history_1 == old(f)@.history_1,
        final(f)@.history_2 == old(f)@.history_2,
        final(f)@.resampler == old(f)@.resampler,
        final(f)@.out == old(f)@.out,
        final(f)@.last_out == old(f)@.last_out,
{
    assert(demodulated(
        angle,
        old(f)@.prev.0,
        old(f)@.prev.1,
        old(f)@.narrow.0,
        old(f)@.narrow.1,
        final(f)@.demodulated,
    ));
}

/// Resampling takes what was demodulated and makes 163 or 164 samples of it.
pub proof fn resampling_takes_the_demodulated<S: Copy, D: Fn(&[S], &[S]) -> S>(
    f: &mut DSPFlow<S>,
    dot: D,
    count: usize,
)
    requires
        call_ensures(DSPFlow::<S>::resample::<D>, (f, dot), count),
    ensures
        163 <= count <= 164,
        final(f)@.demodulated == old(f)@.demodulated,
        final(f)@.history_1 == old(f)@.history_1,
        final(f)@.history_2 == old(f)@.history_2,
        final(f)@.prev == old(f)@.prev,
        final(f)@.last_out == old(f)@.last_out,
        final(f)@.resampler == old(f)@.resampler.after(old(f)@.demodulated),
        resampled(
            dot,
            old(f)@.resampler,
            old(f)@.demodulated,
            final(f)@.out.take(count as int),
        ),
{
}

/// De-emphasizing smooths the live samples and no others.
pub proof fn only_live_samples_are_smoothed<S: Copy, P: Fn(S, S) -> S>(
    f: &mut DSPFlow<S>,
    live: usize,
    pole: P,
    k: int,
)
    requires
        old(f)@.wf(),
        live <= old(f)@.out.len(),
        call_ensures(DSPFlow::<S>::deemphasize::<P>, (f, live, &pole), ()),
        0 <= k < old(f)@.out.len(),
    ensures
        k == 0 && live > 0 ==> call_ensures(
            pole,
            (old(f)@.out[0], old(f)@.last_out),
            final(f)@.out[0],
        ),
        0 < k < live ==> call_ensures(
            pole,
            (old(f)@.out[k], final(f)@.out[k - 1]),
            final(f)@.out[k],
        ),
        live <= k ==> final(f)@.out[k] == old(f)@.out[k],
        live > 0 ==> final(f)@.last_out == final(f)@.out[live - 1],
        final(f)@.resampler == old(f)@.resampler,
        final(f)@.prev == old(f)@.prev,
{
    let x = old(f)@.out.take(live as int);
    let y = final(f)@.out.take(live as int);
    assert(final(f)@.wf());
    if k < live {
        assert(y[k] == final(f)@.out[k]);
        assert(x[k] == old(f)@.out[k]);
        if k > 0 {
            assert(y[k - 1] == final(f)@.out[k - 1]);
        }
        assert(call_ensures(pole, (x[k], before(old(f)@.last_out, y, k)), y[k]));
    } else {
        assert(final(f)@.out.skip(live as int)[k - live] == final(f)@.out[k]);
        assert(old(f)@.out.skip(live as int)[k - live] == old(f)@.out[k]);
    }
}

/// The stages in a row are the chain.
pub proof fn stages_in_a_row_are_the_chain<
    S: Copy,
    F: Fn(&[S], &[S]) -> S + Copy,
    A: Fn(S, S, S, S) -> S,
    D: Fn(&[S], &[S]) -> S,
    P: Fn(S, S) -> S,
>(
    f: &mut DSPFlow<S>,
    t: &Transfer<S>,
    convolve: F,
    angle: A,
    dot: D,
    pole: P,
    made: usize,
)
    requires
        call_ensures(
            DSPFlow::<S>::process::<F, A, D, P>,
            (f, t, convolve, &angle, dot, &pole),
            made,
        ),
    ensures
        flows(
            convolve,
            angle,
            dot,
            pole,
            old(f)@,
            t.i(),
            t.q(),
            final(f)@,
            made as int,
        ),
{
}

} // verus!
