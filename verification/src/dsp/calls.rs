//! What each call of the signal chain does, sample by sample.

use vstd::prelude::*;

use crate::dsp::convolution::{computes, convolve, lanes_make_one_sum, Arithmetic};
use crate::dsp::stages::{
    translated, turned, Deemphasis, DcBlocker, Demodulation, IqDcBlocker, Xlator,
};
use crate::dsp::taps::{create_taps, responds, Design};
use crate::dsp::{
    answers, branch, divides, gcd, is_gcd, lemma_output_in_block, pieces_add_up, taps_per_branch,
    windows, Decim, DecimFIR, FilterType, PartialWriter, PolyphaseResampler, Window,
};
use crate::spmc::RingProducer;

verus! {

/// The greatest common divisor divides both numbers, and no other number that does is
/// greater, unless both are 0.
pub proof fn gcd_is_the_greatest(a: usize, b: usize, g: usize, d: int)
    requires
        call_ensures(gcd, (a, b), g),
        d > 0,
        divides(d, a as int),
        divides(d, b as int),
    ensures
        g > 0 <==> a > 0 || b > 0,
        g > 0 ==> a as int % g as int == 0 && b as int % g as int == 0,
        g > 0 ==> d <= g,
{
    assert(is_gcd(g as int, a as int, b as int));
    let x = choose|k: int| a as int == #[trigger] (g as int * k);
    let y = choose|k: int| b as int == #[trigger] (g as int * k);
    if g == 0 {
        assert(a == 0 && b == 0) by (nonlinear_arith)
            requires
                a as int == g as int * x,
                b as int == g as int * y,
                g == 0,
        ;
    } else {
        assert(a as int % g as int == 0 && b as int % g as int == 0) by {
            vstd::arithmetic::div_mod::lemma_mod_multiples_basic(x, g as int);
            vstd::arithmetic::div_mod::lemma_mod_multiples_basic(y, g as int);
            vstd::arithmetic::mul::lemma_mul_is_commutative(g as int, x);
            vstd::arithmetic::mul::lemma_mul_is_commutative(g as int, y);
        }
        assert(divides(d, g as int));
        let k = choose|k: int| g as int == #[trigger] (d * k);
        assert(d <= g) by (nonlinear_arith)
            requires
                g as int == d * k,
                d > 0,
                g > 0,
        ;
        if a == 0 && b == 0 {
            let big = 2 * g as int;
            assert(0 == big * 0);
            assert(divides(big, 0));
            assert(divides(big, g as int));
            let z = choose|k: int| g as int == #[trigger] (big * k);
            assert(false) by (nonlinear_arith)
                requires
                    g as int == big * z,
                    big == 2 * g as int,
                    g > 0,
            ;
        }
    }
}

/// Sample `j` of a history of `t - 1` samples with a block behind it.
pub open spec fn behind<S>(buf: Seq<S>, block: Seq<S>, t: int, j: int) -> S {
    if j < t - 1 {
        buf[j]
    } else {
        block[j - (t - 1)]
    }
}

/// Every `step`th sample from `offset` on ends a window of the block behind its history,
/// and the windows meet the taps in their order.
pub open spec fn each_meets_the_taps<S, F: Fn(&[S], &[S]) -> S>(
    convolve: F,
    taps: Seq<S>,
    buf: Seq<S>,
    block: Seq<S>,
    offset: int,
    step: int,
    k: int,
    window: Seq<S>,
    out: S,
) -> bool {
    &&& window.len() == taps.len()
    &&& forall|t: int|
        0 <= t < taps.len() ==> #[trigger] window[t] == behind(
            buf,
            block,
            taps.len() as int,
            offset + k * step + t,
        )
    &&& answers(convolve, window, taps, out)
}

/// A block that is read and filtered: output `k` is made of the window that starts
/// `offset + k * step` samples into history and block, for every such start inside the
/// block. The last samples of history and block together are the next history, and
/// the next window starts a step behind the last.
pub proof fn filter_meets_every_step<
    S: Copy,
    F: Fn(&[S], &[S]) -> S,
    const P: usize,
    const N: usize,
    const T: usize,
>(
    f: &mut DecimFIR<S, P, N, T>,
    i: &[S; N],
    q: &[S; N],
    g: &mut DecimFIR<S, P, N, T>,
    step: usize,
    out_i: &mut [S],
    out_q: &mut [S],
    convolve: F,
    k: int,
) -> (w: (Seq<S>, Seq<S>))
    requires
        old(f).wf(),
        call_ensures(DecimFIR::<S, P, N, T>::read_to_buf, (f, i, q), ()),
        *old(g) == *final(f),
        step > 0,
        call_ensures(
            DecimFIR::<S, P, N, T>::process::<F>,
            (g, step, out_i, out_q, convolve),
            (),
        ),
        0 <= k,
        old(f).offset + k * step < N,
    ensures
        each_meets_the_taps(
            convolve,
            old(f).taps@,
            old(f).buf_i@,
            i@,
            old(f).offset as int,
            step as int,
            k,
            w.0,
            final(out_i)@[k],
        ),
        each_meets_the_taps(
            convolve,
            old(f).taps@,
            old(f).buf_q@,
            q@,
            old(f).offset as int,
            step as int,
            k,
            w.1,
            final(out_q)@[k],
        ),
        final(g).taps == old(f).taps,
        forall|j: int|
            0 <= j < T - 1 ==> #[trigger] final(g).buf_i@[j] == behind(
                old(f).buf_i@,
                i@,
                T as int,
                N + j,
            ),
        forall|j: int|
            0 <= j < T - 1 ==> #[trigger] final(g).buf_q@[j] == behind(
                old(f).buf_q@,
                q@,
                T as int,
                N + j,
            ),
        final(g).offset < step,
        (final(g).offset + N - old(f).offset) % (step as int) == 0,
{
    let o = old(f).offset as int;
    let n = N as int;
    let s = step as int;
    let c = windows(n, o, s);
    let at = o + k * s;
    assert(k < c) by {
        crate::dsp::lemma_window_in_block(n, o, s, k);
    }
    let w_i = old(g).buf_i@.subrange(at, at + T);
    let w_q = old(g).buf_q@.subrange(at, at + T);
    assert(0 <= k * s) by (nonlinear_arith)
        requires
            0 <= k,
            s > 0,
    ;
    assert(answers(convolve, w_i, old(g).taps@, final(out_i)@[k]));
    assert(answers(convolve, w_q, old(g).taps@, final(out_q)@[k]));
    let m = n - o + s - 1;
    vstd::arithmetic::div_mod::lemma_fundamental_div_mod(m, s);
    assert(c * s == s * (m / s)) by (nonlinear_arith)
        requires
            c == m / s,
    ;
    assert(final(g).offset + n - o == c * s);
    vstd::arithmetic::div_mod::lemma_mod_multiples_basic(c, s);
    (w_i, w_q)
}

/// One pair is stored where it is told, and nothing else changes.
pub proof fn one_pair_is_stored<S: Copy, const P: usize, const N: usize, const T: usize>(
    f: &mut DecimFIR<S, P, N, T>,
    idx: usize,
    i: S,
    q: S,
)
    requires
        idx < P,
        call_ensures(DecimFIR::<S, P, N, T>::set_iq, (f, idx, i, q), ()),
    ensures
        final(f).buf_i@[idx as int] == i,
        final(f).buf_q@[idx as int] == q,
        forall|j: int|
            0 <= j < P && j != idx ==> final(f).buf_i@[j] == old(f).buf_i@[j] && final(f).buf_q@[j]
                == old(f).buf_q@[j],
        final(f).taps == old(f).taps,
        final(f).offset == old(f).offset,
{
}

/// A new filter has its taps and silence behind it, and starts with the first sample.
pub proof fn new_filter_is_silent<S: Copy, const P: usize, const N: usize, const T: usize>(
    taps: &[S; T],
    silence: S,
    f: DecimFIR<S, P, N, T>,
)
    requires
        call_ensures(DecimFIR::<S, P, N, T>::new, (taps, silence), f),
    ensures
        f.taps@ == taps@,
        f.offset == 0,
        forall|j: int| 0 <= j < P ==> f.buf_i@[j] == silence && f.buf_q@[j] == silence,
{
}

/// A new resampler has dealt out the taps in turn, with silence behind the last, has
/// heard only silence, and starts with the first sample on the first branch.
pub proof fn new_resampler_deals_out_the_taps<S: Copy>(
    interp: usize,
    decim: usize,
    taps: &[S],
    silence: S,
    r: PolyphaseResampler<S>,
    b: int,
    j: int,
)
    requires
        interp > 0,
        taps@.len() > 0,
        call_ensures(PolyphaseResampler::<S>::new, (interp, decim, taps, silence), r),
        0 <= b < interp,
        0 <= j < r@.branches[b].len(),
    ensures
        r@.interp == interp,
        r@.decim == decim,
        r@.phase == 0,
        r@.offset == 0,
        r@.branches.len() == interp,
        interp * (r@.branches[b].len() - 1) < taps@.len() <= interp * r@.branches[b].len(),
        j * interp + b < taps@.len() ==> r@.branches[b][j] == taps@[j * interp + b],
        j * interp + b >= taps@.len() ==> r@.branches[b][j] == silence,
        r@.history.len() + 1 == r@.branches[b].len(),
        forall|i: int| 0 <= i < r@.history.len() ==> r@.history[i] == silence,
{
    assert(r@.branches[b] == branch(taps@, interp as int, silence, b));
    let n = taps@.len() as int;
    let m = n + interp - 1;
    vstd::arithmetic::div_mod::lemma_fundamental_div_mod(m, interp as int);
    let t = taps_per_branch(n, interp as int);
    assert(interp * (t - 1) == interp * t - interp) by (nonlinear_arith);
}

/// Sample `j` of the history with the block behind it.
pub open spec fn heard<S>(history: Seq<S>, input: Seq<S>, j: int) -> S {
    if j < history.len() {
        history[j]
    } else {
        input[j - history.len()]
    }
}

/// A block that is resampled: `interp` outputs for every `decim` samples. Output `m`
/// stands `m * decim` steps of one `interp`th of a sample behind where the block takes
/// up; the whole samples of that are where its window starts, and the rest is its
/// branch. There is an output for every such start inside the block.
pub proof fn resampler_takes_even_steps<S: Copy, F: Fn(&[S], &[S]) -> S>(
    r: &mut PolyphaseResampler<S>,
    input: &[S],
    output: &mut [S],
    dot: F,
    count: usize,
    m: int,
) -> (w: (Seq<S>, int, int))
    requires
        old(r)@.wf(),
        old(r)@.decim > 0,
        call_ensures(
            PolyphaseResampler::<S>::process::<F>,
            (r, input, output, dot),
            count,
        ),
        0 <= m,
    ensures
        ({
            let a = old(r)@;
            let b = final(r)@;
            let (window, whole, rest) = w;
            let n = input@.len() as int;
            &&& a.phase + m * a.decim == whole * a.interp + rest
            &&& 0 <= rest < a.interp
            &&& m < count <==> a.offset + whole < n
            &&& m < count ==> {
                &&& window.len() == a.history.len() + 1
                &&& forall|j: int|
                    0 <= j < window.len() ==> #[trigger] window[j] == heard(
                        a.history,
                        input@,
                        a.offset + whole + j,
                    )
                &&& answers(dot, a.branches[rest], window, final(output)@[m])
            }
            &&& m == count ==> b.phase == rest && b.offset == a.offset + whole - n
            &&& b.branches == a.branches
            &&& b.interp == a.interp
            &&& b.decim == a.decim
            &&& b.silence == a.silence
            &&& b.history.len() == a.history.len()
            &&& n >= a.history.len() ==> forall|j: int|
                0 <= j < a.history.len() ==> #[trigger] b.history[j] == input@[n - a.history.len()
                    + j]
            &&& count <= m < old(output)@.len() ==> final(output)@[m] == old(output)@[m]
        }),
{
    let a = old(r)@;
    let n = input@.len() as int;
    let u = a.ticks(m);
    let whole = u / a.interp;
    let rest = u % a.interp;
    vstd::arithmetic::div_mod::lemma_fundamental_div_mod(u, a.interp);
    assert(whole * a.interp == a.interp * whole) by (nonlinear_arith);
    lemma_output_in_block(a, n, m);
    assert(u >= 0) by (nonlinear_arith)
        requires
            u == a.phase + m * a.decim,
            a.phase >= 0,
            m >= 0,
            a.decim > 0,
    ;
    vstd::arithmetic::div_mod::lemma_div_pos_is_pos(u, a.interp);
    let at = a.offset + whole;
    let window = (a.history + input@).subrange(at, at + a.history.len() + 1);
    if m < count {
        assert(answers(dot, a.branches[rest], window, final(output)@[m]));
    }
    (window, whole, rest)
}

/// A piece that is gathered: what goes into the block under construction is what there
/// is room for, and nothing is lost between what the ring has published and what is
/// under construction, unless the ring refuses.
pub proof fn writer_loses_nothing<T: Copy + Default, const N: usize, const M: usize>(
    w: &mut PartialWriter<T, N>,
    src: &[T; M],
    taken: usize,
)
    requires
        old(w)@.wf(N as nat),
        M <= 2 * N - old(w)@.cursor,
        call_ensures(PartialWriter::<T, N>::write::<M>, (w, src), taken),
    ensures
        ({
            let a = old(w)@;
            let b = final(w)@;
            let before = a.producer.ring.published;
            let after = b.producer.ring.published;
            let room = N - a.cursor;
            &&& M <= room ==> taken == M && b.cursor == a.cursor + M && b.producer == a.producer
            &&& M > room ==> taken == room && b.cursor == M - room
            &&& !a.producer.refuses() ==> {
                &&& after.take(before.len() as int) == before
                &&& after.skip(before.len() as int).flatten() + b.buf.take(b.cursor) == a.buf.take(
                    a.cursor,
                ) + src@
            }
            &&& M > room ==> b.buf.take(b.cursor) == src@.skip(room)
        }),
{
    let a = old(w)@;
    if !a.producer.refuses() {
        pieces_add_up(a, src@, N as nat);
    }
    let room = N - a.cursor;
    if M > room {
        assert(final(w)@.buf.take(final(w)@.cursor) =~= src@.skip(room));
    }
}

/// A mean is that of the sum so far and one sample more.
pub open spec fn mean_of<S, F: Fn(S, S) -> S, G: Fn(S) -> S>(
    sum: F,
    mean: G,
    acc: S,
    x: S,
    m: S,
) -> bool {
    exists|total: S|
        #[trigger] call_ensures(sum, (acc, x), total) && call_ensures(mean, (total,), m)
}

/// Pairs are gathered until there are enough, with one sum for each leg; the means are
/// those of the sums, and the next pair starts over.
pub proof fn means_are_of_their_own_leg<
    S: Copy,
    F: Fn(S, S) -> S,
    G: Fn(S) -> S,
    const A: u32,
    const B: u32,
>(
    d: &mut Decim<S, A, B>,
    i: S,
    q: S,
    sum: F,
    mean: G,
    r: Option<(S, S)>,
)
    requires
        call_ensures(Decim::<S, A, B>::iq_decim::<F, G>, (d, i, q, &sum, &mean), r),
    ensures
        r is Some <==> old(d)@.iq_n + 1 >= A,
        r matches Some(means) ==> mean_of(sum, mean, old(d)@.i_acc, i, means.0) && mean_of(
            sum,
            mean,
            old(d)@.q_acc,
            q,
            means.1,
        ),
        r is Some ==> final(d)@.i_acc == old(d)@.zero && final(d)@.q_acc == old(d)@.zero
            && final(d)@.iq_n == 0,
        r is None ==> call_ensures(sum, (old(d)@.i_acc, i), final(d)@.i_acc) && call_ensures(
            sum,
            (old(d)@.q_acc, q),
            final(d)@.q_acc,
        ) && final(d)@.iq_n == old(d)@.iq_n + 1,
        final(d)@.zero == old(d)@.zero,
        final(d)@.post_acc == old(d)@.post_acc,
        final(d)@.post_n == old(d)@.post_n,
{
}

/// The same of the second stage.
pub proof fn second_mean_is_of_its_samples<
    S: Copy,
    F: Fn(S, S) -> S,
    G: Fn(S) -> S,
    const A: u32,
    const B: u32,
>(
    d: &mut Decim<S, A, B>,
    x: S,
    sum: F,
    mean: G,
    r: Option<S>,
)
    requires
        call_ensures(Decim::<S, A, B>::post_decim::<F, G>, (d, x, &sum, &mean), r),
    ensures
        r is Some <==> old(d)@.post_n + 1 >= B,
        r matches Some(m) ==> mean_of(sum, mean, old(d)@.post_acc, x, m),
        r is Some ==> final(d)@.post_acc == old(d)@.zero && final(d)@.post_n == 0,
        r is None ==> call_ensures(sum, (old(d)@.post_acc, x), final(d)@.post_acc) && final(
            d)@.post_n == old(d)@.post_n + 1,
        final(d)@.zero == old(d)@.zero,
        final(d)@.i_acc == old(d)@.i_acc,
        final(d)@.q_acc == old(d)@.q_acc,
        final(d)@.iq_n == old(d)@.iq_n,
{
}

/// A blocker takes its offset off the sample, and follows what is left; on I and Q each
/// has its own.
pub proof fn blockers_follow_their_own_leg<S: Copy, F: Fn(S, S) -> S, G: Fn(S, S) -> S>(
    b: &mut DcBlocker<S>,
    x: S,
    y: S,
    p: &mut IqDcBlocker<S>,
    i: S,
    q: S,
    r: (S, S),
    less: F,
    integrate: G,
)
    requires
        call_ensures(DcBlocker::<S>::process::<F, G>, (b, x, &less, &integrate), y),
        call_ensures(IqDcBlocker::<S>::process::<F, G>, (p, i, q, &less, &integrate), r),
    ensures
        call_ensures(less, (x, old(b).offset), y),
        call_ensures(integrate, (old(b).offset, y), final(b).offset),
        call_ensures(less, (i, old(p).i_blocker.offset), r.0),
        call_ensures(less, (q, old(p).q_blocker.offset), r.1),
        call_ensures(integrate, (old(p).i_blocker.offset, r.0), final(p).i_blocker.offset),
        call_ensures(integrate, (old(p).q_blocker.offset, r.1), final(p).q_blocker.offset),
{
}

/// The arithmetic turns: a product has the turns of both, and a correction keeps them.
pub open spec fn turns_add_up<C, F: Fn(C, C) -> C, G: Fn(C) -> C>(
    times: F,
    correct: G,
    turns: spec_fn(C) -> int,
) -> bool {
    &&& forall|a: C, b: C, y: C| #[trigger]
        call_ensures(times, (a, b), y) ==> turns(y) == turns(a) + turns(b)
    &&& forall|a: C, y: C| #[trigger] call_ensures(correct, (a,), y) ==> turns(y) == turns(a)
}

proof fn lemma_phase<C, F: Fn(C, C) -> C, G: Fn(C) -> C>(
    times: F,
    correct: G,
    turns: spec_fn(C) -> int,
    delta: C,
    since: int,
    phases: Seq<C>,
    xs: Seq<C>,
    ys: Seq<C>,
    k: int,
)
    requires
        turns_add_up(times, correct, turns),
        translated(times, correct, delta, since, phases, xs, ys),
        0 <= k <= xs.len(),
    ensures
        turns(phases[k]) == turns(phases[0]) + k * turns(delta),
    decreases k,
{
    if k > 0 {
        lemma_phase(times, correct, turns, delta, since, phases, xs, ys, k - 1);
        let j = k - 1;
        assert(turned(times, correct, delta, since + j, phases[j], phases[j + 1]));
        assert(k * turns(delta) == j * turns(delta) + turns(delta)) by (nonlinear_arith)
            requires
                j == k - 1,
        ;
    } else {
        assert(0 * turns(delta) == 0);
    }
}

/// The spectrum is shifted evenly: where products add up turns, sample `k` of a block is
/// turned by the phase before the block and `k` times the step, and the phase after
/// the block is as far on as there are samples.
pub proof fn translator_turns_evenly<C: Copy, F: Fn(C, C) -> C, G: Fn(C) -> C>(
    x: &mut Xlator<C>,
    buf: &mut [C],
    times: F,
    correct: G,
    turns: spec_fn(C) -> int,
    k: int,
)
    requires
        call_ensures(Xlator::<C>::process::<F, G>, (x, buf, &times, &correct), ()),
        turns_add_up(times, correct, turns),
        0 <= k < old(buf)@.len(),
    ensures
        final(buf)@.len() == old(buf)@.len(),
        turns(final(buf)@[k]) == turns(old(buf)@[k]) + turns(old(x).phase) + k * turns(
            old(x).delta,
        ),
        turns(final(x).phase) == turns(old(x).phase) + old(buf)@.len() * turns(old(x).delta),
        final(x).delta == old(x).delta,
{
    let phases = choose|phases: Seq<C>|
        #[trigger] translated(
            times,
            correct,
            old(x).delta,
            old(x).n as int,
            phases,
            old(buf)@,
            final(buf)@,
        ) && phases[0] == old(x).phase && phases.last() == final(x).phase;
    let n = old(buf)@.len() as int;
    lemma_phase(
        times,
        correct,
        turns,
        old(x).delta,
        old(x).n as int,
        phases,
        old(buf)@,
        final(buf)@,
        k,
    );
    lemma_phase(
        times,
        correct,
        turns,
        old(x).delta,
        old(x).n as int,
        phases,
        old(buf)@,
        final(buf)@,
        n,
    );
    assert(call_ensures(times, (old(buf)@[k], phases[k]), final(buf)@[k]));
}

/// One sample is turned by the phase as it stands; the phase then moves on by the step,
/// and every 512th time it is corrected.
pub proof fn phase_is_corrected_now_and_then<C: Copy, F: Fn(C, C) -> C, G: Fn(C) -> C>(
    x: &mut Xlator<C>,
    a: C,
    y: C,
    times: F,
    correct: G,
)
    requires
        old(x).n < 512,
        call_ensures(Xlator::<C>::process_sample::<F, G>, (x, a, &times, &correct), y),
    ensures
        call_ensures(times, (a, old(x).phase), y),
        old(x).n < 511 ==> call_ensures(times, (old(x).phase, old(x).delta), final(x).phase)
            && final(x).n == old(x).n + 1,
        old(x).n == 511 ==> final(x).n == 0 && exists|moved: C|
            #[trigger] call_ensures(times, (old(x).phase, old(x).delta), moved) && call_ensures(
                correct,
                (moved,),
                final(x).phase,
            ),
        final(x).delta == old(x).delta,
{
}

/// Another offset takes effect without a jump in phase.
pub proof fn offset_changes_without_a_jump<C: Copy>(x: &mut Xlator<C>, delta: C)
    requires
        call_ensures(Xlator::<C>::set_offset, (x, delta), ()),
    ensures
        final(x).delta == delta,
        final(x).phase == old(x).phase,
        final(x).n == old(x).n,
{
}

/// Every sample is held against the one before it, the first of a block against the
/// last of the block before.
pub proof fn discriminator_compares_neighbours<S: Copy, F: Fn(S, S, S, S) -> S>(
    d: &mut Demodulation<S>,
    i: &[S],
    q: &[S],
    out: &mut [S],
    angle: F,
    k: int,
)
    requires
        call_ensures(Demodulation::<S>::process::<F>, (d, i, q, out, &angle), ()),
        0 <= k < final(out)@.len(),
    ensures
        i@.len() == final(out)@.len(),
        q@.len() == final(out)@.len(),
        k == 0 ==> call_ensures(
            angle,
            (i@[0], q@[0], old(d).prev_i, old(d).prev_q),
            final(out)@[0],
        ),
        k > 0 ==> call_ensures(angle, (i@[k], q@[k], i@[k - 1], q@[k - 1]), final(out)@[k]),
        final(d).prev_i == i@.last(),
        final(d).prev_q == q@.last(),
{
}

/// Every output is made of its sample and the output before it, the first of a block
/// with the last of the block before; samples behind the count stay.
pub proof fn pole_follows_its_output<S: Copy, F: Fn(S, S) -> S>(
    d: &mut Deemphasis<S>,
    buf: &mut [S],
    count: usize,
    pole: F,
    k: int,
)
    requires
        count <= old(buf)@.len(),
        call_ensures(Deemphasis::<S>::process::<F>, (d, buf, count, &pole), ()),
        0 <= k < old(buf)@.len(),
    ensures
        final(buf)@.len() == old(buf)@.len(),
        k == 0 && count > 0 ==> call_ensures(
            pole,
            (old(buf)@[0], old(d).last_out),
            final(buf)@[0],
        ),
        0 < k < count ==> call_ensures(pole, (old(buf)@[k], final(buf)@[k - 1]), final(buf)@[k]),
        k >= count ==> final(buf)@[k] == old(buf)@[k],
        count > 0 ==> final(d).last_out == final(buf)@[count - 1],
        count == 0 ==> final(d).last_out == old(d).last_out,
{
    let y = final(buf)@.take(count as int);
    if k < count {
        assert(y[k] == final(buf)@[k]);
        assert(old(buf)@.take(count as int)[k] == old(buf)@[k]);
        if k > 0 {
            assert(y[k - 1] == final(buf)@[k - 1]);
        }
    } else {
        assert(final(buf)@.skip(count as int)[k - count] == final(buf)@[k]);
        assert(old(buf)@.skip(count as int)[k - count] == old(buf)@[k]);
    }
}

/// New stages have heard only silence.
pub proof fn new_stages_are_silent<S: Copy>(
    silence: S,
    b: DcBlocker<S>,
    p: IqDcBlocker<S>,
    d: Demodulation<S>,
    e: Deemphasis<S>,
    delta: S,
    x: Xlator<S>,
)
    requires
        call_ensures(DcBlocker::<S>::new, (silence,), b),
        call_ensures(IqDcBlocker::<S>::new, (silence,), p),
        call_ensures(Demodulation::<S>::new, (silence,), d),
        call_ensures(Deemphasis::<S>::new, (silence,), e),
        call_ensures(Xlator::<S>::new, (silence, delta), x),
    ensures
        b.offset == silence,
        p.i_blocker.offset == silence,
        p.q_blocker.offset == silence,
        d.prev_i == silence,
        d.prev_q == silence,
        e.last_out == silence,
        x.phase == silence,
        x.delta == delta,
        x.n == 0,
{
}

/// The products of a window with the taps in reverse, summed from the first on.
pub open spec fn reversed_sum<S>(r: Arithmetic<S>, x: Seq<S>, y: Seq<S>, n: nat) -> S
    decreases n,
{
    if n == 0 {
        r.zero
    } else {
        (r.plus)(
            reversed_sum(r, x, y, (n - 1) as nat),
            (r.times)(x[n - 1], y[x.len() - n]),
        )
    }
}

proof fn lemma_reversed_sum<S>(r: Arithmetic<S>, x: Seq<S>, y: Seq<S>, n: nat)
    ensures
        r.total(x, y, 0, 1, n) == reversed_sum(r, x, y, n),
    decreases n,
{
    if n > 0 {
        lemma_reversed_sum(r, x, y, (n - 1) as nat);
    }
}

/// The newest sample of a window meets the first tap and the oldest the last: the
/// convolution is the sum of all those products, in any arithmetic in which sums can be
/// taken in any order.
pub proof fn newest_sample_meets_the_first_tap<S: Copy, F: Fn(S, S, S) -> S, G: Fn(S, S) -> S>(
    x: &[S],
    y: &[S],
    step: F,
    sum: G,
    r: Arithmetic<S>,
    result: S,
)
    requires
        r.lawful(),
        computes(step, sum, r),
        call_ensures(convolve::<S, F, G>, (x, y, r.zero, &step, &sum), result),
    ensures
        result == reversed_sum(r, x@, y@, x@.len()),
{
    lanes_make_one_sum(step, sum, r, x@, y@, result);
    lemma_reversed_sum(r, x@, y@, x@.len());
}

/// The values of a list, summed from the first on.
pub open spec fn gain<S>(plus: spec_fn(S, S) -> S, zero: S, xs: Seq<S>, n: nat) -> S
    decreases n,
{
    if n == 0 {
        zero
    } else {
        plus(gain(plus, zero, xs, (n - 1) as nat), xs[n - 1])
    }
}

proof fn lemma_gain<S, A: Fn(S, S) -> S>(
    f: A,
    plus: spec_fn(S, S) -> S,
    zero: S,
    xs: Seq<S>,
    sums: Seq<S>,
    n: nat,
)
    requires
        crate::dsp::taps::added(f, zero, xs, sums),
        forall|a: S, b: S, y: S| #[trigger] call_ensures(f, (a, b), y) ==> y == plus(a, b),
        n <= xs.len(),
    ensures
        sums[n as int] == gain(plus, zero, xs, n),
    decreases n,
{
    if n > 0 {
        lemma_gain(f, plus, zero, xs, sums, (n - 1) as nat);
        assert(call_ensures(f, (sums[n - 1], xs[n - 1]), sums[n - 1 + 1]));
    }
}

/// A tap is the ideal response there times the window there, over the sum of all those
/// products. Of a high-pass, and of it alone, the middle one has the complement of the
/// response.
pub proof fn taps_are_the_shaped_response<
    S: Copy,
    I: Fn(usize) -> S,
    W: Fn(Window, usize) -> S,
    O: Fn(S) -> S,
    M: Fn(S, S) -> S,
    A: Fn(S, S) -> S,
    D: Fn(S, S) -> S,
    const N: usize,
>(
    filter_type: FilterType,
    window: Window,
    design: Design<I, W, O, M, A, D>,
    zero: S,
    taps: [S; N],
    ideal: spec_fn(int) -> S,
    shape: spec_fn(int) -> S,
    complement: spec_fn(S) -> S,
    times: spec_fn(S, S) -> S,
    plus: spec_fn(S, S) -> S,
    over: spec_fn(S, S) -> S,
    k: int,
)
    requires
        N >= 1,
        call_ensures(
            create_taps::<S, I, W, O, M, A, D, N>,
            (filter_type, window, &design, zero),
            taps,
        ),
        forall|j: usize, y: S| #[trigger]
            call_ensures(design.ideal, (j,), y) ==> y == ideal(j as int),
        forall|j: usize, y: S| #[trigger]
            call_ensures(design.shape, (window, j), y) ==> y == shape(j as int),
        forall|a: S, y: S| #[trigger]
            call_ensures(design.complement, (a,), y) ==> y == complement(a),
        forall|a: S, b: S, y: S| #[trigger]
            call_ensures(design.times, (a, b), y) ==> y == times(a, b),
        forall|a: S, b: S, y: S| #[trigger]
            call_ensures(design.plus, (a, b), y) ==> y == plus(a, b),
        forall|a: S, b: S, y: S| #[trigger]
            call_ensures(design.over, (a, b), y) ==> y == over(a, b),
        0 <= k < N,
    ensures
        ({
            let product = |j: int|
                times(
                    if filter_type is Highpass && j == (N - 1) / 2 {
                        complement(ideal(j))
                    } else {
                        ideal(j)
                    },
                    shape(j),
                );
            taps@[k] == over(product(k), gain(plus, zero, Seq::new(N as nat, product), N as nat))
        }),
{
    let product = |j: int|
        times(
            if filter_type is Highpass && j == (N - 1) / 2 {
                complement(ideal(j))
            } else {
                ideal(j)
            },
            shape(j),
        );
    let (responses, shapes, products, sums) = choose|
        responses: Seq<S>,
        shapes: Seq<S>,
        products: Seq<S>,
        sums: Seq<S>,
    | #[trigger]
        design.made(filter_type, window, zero, responses, shapes, products, sums, taps@);
    assert forall|j: int| 0 <= j < N implies #[trigger] products[j] == product(j) by {
        assert(responds(
            filter_type,
            design.ideal,
            design.complement,
            N as int,
            j,
            responses[j],
        ));
        assert(call_ensures(design.shape, (window, j as usize), shapes[j]));
        assert(call_ensures(design.times, (responses[j], shapes[j]), products[j]));
    }
    assert(products =~= Seq::new(N as nat, product));
    lemma_gain(design.plus, plus, zero, products, sums, N as nat);
    assert(call_ensures(design.over, (products[k], sums[N as int]), taps@[k]));
}

/// A new writer has an empty block, says how full it is, and lends out its producer.
pub proof fn new_writer_is_empty<'a, T: Copy + Default, const N: usize>(
    producer: RingProducer<T, 16, N>,
    w: PartialWriter<T, N>,
    v: &PartialWriter<T, N>,
    k: usize,
    u: &'a mut PartialWriter<T, N>,
    p: &'a mut RingProducer<T, 16, N>,
)
    requires
        call_ensures(PartialWriter::<T, N>::new, (producer,), w),
        call_ensures(PartialWriter::<T, N>::cursor, (v,), k),
        call_ensures(PartialWriter::<T, N>::producer_mut, (u,), p),
    ensures
        w@.cursor == 0,
        w@.producer == producer@,
        k == v@.cursor,
        old(p)@ == old(u)@.producer,
        final(u)@.producer == final(p)@,
        final(u)@.buf == old(u)@.buf,
        final(u)@.cursor == old(u)@.cursor,
{
}

} // verus!
