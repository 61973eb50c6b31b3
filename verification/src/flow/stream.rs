//! The chain over transfers that follow one another: one uninterrupted stream, from
//! the samples of I and Q to the audio.

use vstd::prelude::*;

use crate::dsp::stages::{before, demodulated, latest, smoothed};
use crate::dsp::{answers, ResamplerView};
use crate::flow::chain::flows;
use crate::flow::{decimated, lemma_count, narrowed, resampled, FlowView, NARROW, PAIRS};

verus! {

/// `r` is what the function may make of the samples `x` and the taps `y`.
pub open spec fn applied<S, F: Fn(&[S], &[S]) -> S>(f: F, x: Seq<S>, y: Seq<S>, r: S) -> bool {
    exists|w: &[S], t: &[S]| w@ == x && t@ == y && #[trigger] call_ensures(f, (w, t), r)
}

/// `out` is the stream behind `lead` filtered and thinned out: output `k` is the taps
/// applied to as many samples, the last of them sample `step * k` of the stream.
pub open spec fn thinned<S, F: Fn(&[S], &[S]) -> S>(
    f: F,
    taps: Seq<S>,
    lead: Seq<S>,
    stream: Seq<S>,
    step: int,
    out: Seq<S>,
) -> bool {
    let all = lead + stream;
    &&& lead.len() + 1 == taps.len()
    &&& out.len() * step == stream.len()
    &&& forall|k: int|
        0 <= k < out.len() ==> applied(
            f,
            all.subrange(step * k, step * k + taps.len()),
            taps,
            #[trigger] out[k],
        )
}

/// Two blocks through a decimator that keeps the end of the first.
proof fn lemma_two_blocks<S, F: Fn(&[S], &[S]) -> S>(
    f: F,
    taps: Seq<S>,
    h: Seq<S>,
    a: Seq<S>,
    b: Seq<S>,
    step: int,
    x: Seq<S>,
    y: Seq<S>,
)
    requires
        step > 0,
        decimated(f, taps, h, a, step, x),
        decimated(f, taps, a.skip(a.len() - h.len()), b, step, y),
        h.len() + 1 == taps.len(),
        h.len() <= a.len(),
        x.len() * step == a.len(),
        y.len() * step == b.len(),
    ensures
        thinned(f, taps, h, a + b, step, x + y),
{
    let all = h + (a + b);
    let tail = a.skip(a.len() - h.len());
    let out = x + y;
    let n = x.len() as int;
    assert((x.len() + y.len()) * step == x.len() * step + y.len() * step) by (nonlinear_arith);
    assert forall|k: int| 0 <= k < out.len() implies applied(
        f,
        all.subrange(step * k, step * k + taps.len()),
        taps,
        #[trigger] out[k],
    ) by {
        assert(step * k == k * step) by (nonlinear_arith);
        if k < n {
            assert(out[k] == x[k]);
            assert(k * step + step <= n * step && 0 <= k * step) by (nonlinear_arith)
                requires
                    0 <= k < n,
                    step > 0,
            ;
            assert((h + a).subrange(k * step, k * step + taps.len()) =~= all.subrange(
                step * k,
                step * k + taps.len(),
            ));
            assert(answers(
                f,
                (h + a).subrange(k * step, k * step + taps.len()),
                taps,
                x[k],
            ));
        } else {
            let j = k - n;
            assert(out[k] == y[j]);
            assert(k * step == n * step + j * step) by (nonlinear_arith)
                requires
                    k == n + j,
            ;
            assert(j * step + step <= y.len() * step && 0 <= j * step) by (nonlinear_arith)
                requires
                    0 <= j < y.len(),
                    step > 0,
            ;
            assert((tail + b).subrange(j * step, j * step + taps.len()) =~= all.subrange(
                step * k,
                step * k + taps.len(),
            ));
            assert(answers(
                f,
                (tail + b).subrange(j * step, j * step + taps.len()),
                taps,
                y[j],
            ));
        }
    }
}

/// What both decimators make of one leg over two transfers: `middle` is what the
/// first puts out, and `out` what the second does.
pub open spec fn narrows<S, F: Fn(&[S], &[S]) -> S>(
    convolve: F,
    taps_1: Seq<S>,
    taps_2: Seq<S>,
    lead_1: Seq<S>,
    lead_2: Seq<S>,
    stream: Seq<S>,
    middle: Seq<S>,
    out: Seq<S>,
) -> bool {
    &&& thinned(convolve, taps_1, lead_1, stream, 4, middle)
    &&& thinned(convolve, taps_2, lead_2, middle, 2, out)
}

/// The two decimators see one stream: for any two transfers fed one after the other,
/// output `k` of the first is its taps applied to samples `4k - 26` to `4k` of all
/// that came in, and output `k` of the second is its taps applied to samples
/// `2k - 68` to `2k` of all that the first put out. What is kept is the end of each
/// of the two streams.
pub proof fn decimators_see_one_stream<S, F: Fn(&[S], &[S]) -> S>(
    convolve: F,
    v: FlowView<S>,
    w: FlowView<S>,
    h: (Seq<S>, Seq<S>),
    g: (Seq<S>, Seq<S>),
    k: (Seq<S>, Seq<S>),
    a: Seq<S>,
    b: Seq<S>,
    mid_a: Seq<S>,
    mid_b: Seq<S>,
    out_a: Seq<S>,
    out_b: Seq<S>,
)
    requires
        v.taps_1.len() == 27,
        v.taps_2.len() == 69,
        w.taps_1 == v.taps_1,
        w.taps_2 == v.taps_2,
        h.0.len() == 26,
        h.1.len() == 68,
        a.len() == PAIRS,
        b.len() == PAIRS,
        narrowed(convolve, v, h.0, h.1, a, mid_a, g.0, g.1, out_a),
        narrowed(convolve, w, g.0, g.1, b, mid_b, k.0, k.1, out_b),
    ensures
        narrows(
            convolve,
            v.taps_1,
            v.taps_2,
            h.0,
            h.1,
            a + b,
            mid_a + mid_b,
            out_a + out_b,
        ),
        g.0 == a.subrange(a.len() - 26, a.len() as int),
        g.1 == mid_a.subrange(mid_a.len() - 68, mid_a.len() as int),
        k.0 == (a + b).subrange(a.len() + b.len() - 26, (a.len() + b.len()) as int),
        k.1 == (mid_a + mid_b).subrange(
            mid_a.len() + mid_b.len() - 68,
            (mid_a.len() + mid_b.len()) as int,
        ),
        mid_a.len() == 2048,
        mid_b.len() == 2048,
        out_a.len() == 1024,
        out_b.len() == 1024,
{
    lemma_two_blocks(convolve, v.taps_1, h.0, a, b, 4, mid_a, mid_b);
    lemma_two_blocks(convolve, v.taps_2, h.1, mid_a, mid_b, 2, out_a, out_b);
    assert(g.0 =~= a.subrange(a.len() - 26, a.len() as int));
    assert(g.1 =~= mid_a.subrange(mid_a.len() - 68, mid_a.len() as int));
    assert(k.0 =~= (a + b).subrange(a.len() + b.len() - 26, (a.len() + b.len()) as int));
    assert(k.1 =~= (mid_a + mid_b).subrange(
        mid_a.len() + mid_b.len() - 68,
        (mid_a.len() + mid_b.len()) as int,
    ));
}

/// `out` is a stream resampled by 4/25: output `m` is branch `(first + 25 m) % 4`
/// applied to as many samples, starting `(first + 25 m) / 4` behind the beginning of
/// the lead.
pub open spec fn resampled_from<S, D: Fn(&[S], &[S]) -> S>(
    dot: D,
    branches: Seq<Seq<S>>,
    lead: Seq<S>,
    first: int,
    stream: Seq<S>,
    out: Seq<S>,
) -> bool {
    forall|m: int|
        0 <= m < out.len() ==> applied(
            dot,
            branches[(first + 25 * m) % 4],
            (lead + stream).subrange(
                (first + 25 * m) / 4,
                (first + 25 * m) / 4 + lead.len() + 1,
            ),
            #[trigger] out[m],
        )
}

/// Two blocks through the resampler.
proof fn lemma_resampled_twice<S, D: Fn(&[S], &[S]) -> S>(
    dot: D,
    r: ResamplerView<S>,
    a: Seq<S>,
    b: Seq<S>,
    x: Seq<S>,
    y: Seq<S>,
)
    requires
        r.wf(),
        r.interp == 4,
        r.decim == 25,
        r.offset * 4 + r.phase < 25,
        a.len() == NARROW,
        b.len() == NARROW,
        r.history.len() <= NARROW,
        resampled(dot, r, a, x),
        resampled(dot, r.after(a), b, y),
    ensures
        resampled_from(dot, r.branches, r.history, 4 * r.offset + r.phase, a + b, x + y),
{
    let first = 4 * r.offset + r.phase;
    let h = r.history.len() as int;
    let n = x.len() as int;
    let all = r.history + (a + b);
    let out = x + y;
    let s = r.after(a);
    lemma_count(r, a);
    assert(s.history =~= a.skip(a.len() - h));
    assert(r.ticks(n) == r.phase + 25 * n);
    assert(s.phase == (r.phase + 25 * n) % 4);
    assert(s.offset == r.offset + (r.phase + 25 * n) / 4 - NARROW);
    assert forall|m: int| 0 <= m < out.len() implies applied(
        dot,
        r.branches[(first + 25 * m) % 4],
        all.subrange((first + 25 * m) / 4, (first + 25 * m) / 4 + h + 1),
        #[trigger] out[m],
    ) by {
        if m < n {
            assert(out[m] == x[m]);
            assert(r.ticks(m) == r.phase + 25 * m);
            crate::dsp::lemma_output_in_block(r, NARROW as int, m);
            let at = r.position(m);
            assert(at == (first + 25 * m) / 4);
            assert((first + 25 * m) % 4 == r.ticks(m) % 4);
            assert((r.history + a).subrange(at, at + h + 1) =~= all.subrange(at, at + h + 1));
            assert(answers(
                dot,
                r.branches[r.ticks(m) % 4],
                (r.history + a).subrange(r.position(m), r.position(m) + r.history.len() + 1),
                x[m],
            ));
        } else {
            let j = m - n;
            assert(out[m] == y[j]);
            assert(s.ticks(j) == s.phase + 25 * j);
            crate::dsp::lemma_output_in_block(s, NARROW as int, j);
            let at = s.position(j);
            assert(at + NARROW == (first + 25 * m) / 4);
            assert((first + 25 * m) % 4 == s.ticks(j) % 4);
            assert((s.history + b).subrange(at, at + h + 1) =~= all.subrange(
                at + NARROW,
                at + NARROW + h + 1,
            ));
            assert(answers(
                dot,
                s.branches[s.ticks(j) % 4],
                (s.history + b).subrange(s.position(j), s.position(j) + s.history.len() + 1),
                y[j],
            ));
        }
    }
}

/// The signals of the chain over two transfers: the first decimator's, the resampled
/// one before de-emphasis.
pub struct Signals<S> {
    pub middle_i: Seq<S>,
    pub middle_q: Seq<S>,
    pub flat: Seq<S>,
}

/// The chain as a whole sees one stream, however it is cut into transfers. For any
/// two that follow one another, with all they bring put end to end:
/// both legs are filtered and thinned out by 4 and by 2; every narrow pair is
/// discriminated against the pair before it; what comes of that is resampled by
/// 4/25; and every sample of audio is de-emphasized against the one before it. What
/// stands before the first of each is what the chain held before.
pub proof fn chain_sees_one_stream<
    S,
    F: Fn(&[S], &[S]) -> S,
    A: Fn(S, S, S, S) -> S,
    D: Fn(&[S], &[S]) -> S,
    P: Fn(S, S) -> S,
>(
    convolve: F,
    angle: A,
    dot: D,
    pole: P,
    start: FlowView<S>,
    between: FlowView<S>,
    end: FlowView<S>,
    i: (Seq<S>, Seq<S>),
    q: (Seq<S>, Seq<S>),
    count: (int, int),
) -> (s: Signals<S>)
    requires
        start.wf(),
        start.history_1.0.len() == 26,
        start.history_1.1.len() == 26,
        start.history_2.0.len() == 68,
        start.history_2.1.len() == 68,
        start.resampler.history.len() <= NARROW,
        i.0.len() == PAIRS,
        i.1.len() == PAIRS,
        q.0.len() == PAIRS,
        q.1.len() == PAIRS,
        flows(convolve, angle, dot, pole, start, i.0, q.0, between, count.0),
        flows(convolve, angle, dot, pole, between, i.1, q.1, end, count.1),
    ensures
        ({
            let narrow_i = between.narrow.0 + end.narrow.0;
            let narrow_q = between.narrow.1 + end.narrow.1;
            let demod = between.demodulated + end.demodulated;
            let audio = between.out.take(count.0) + end.out.take(count.1);
            &&& narrows(
                convolve,
                start.taps_1,
                start.taps_2,
                start.history_1.0,
                start.history_2.0,
                i.0 + i.1,
                s.middle_i,
                narrow_i,
            )
            &&& narrows(
                convolve,
                start.taps_1,
                start.taps_2,
                start.history_1.1,
                start.history_2.1,
                q.0 + q.1,
                s.middle_q,
                narrow_q,
            )
            &&& demod.len() == 2048 && narrow_i.len() == 2048 && narrow_q.len() == 2048
            &&& forall|k: int|
                0 <= k < 2048 ==> call_ensures(
                    angle,
                    (
                        narrow_i[k],
                        narrow_q[k],
                        if k == 0 {
                            start.prev.0
                        } else {
                            narrow_i[k - 1]
                        },
                        if k == 0 {
                            start.prev.1
                        } else {
                            narrow_q[k - 1]
                        },
                    ),
                    #[trigger] demod[k],
                )
            &&& s.flat.len() == count.0 + count.1
            &&& resampled_from(
                dot,
                start.resampler.branches,
                start.resampler.history,
                4 * start.resampler.offset + start.resampler.phase,
                demod,
                s.flat,
            )
            &&& audio.len() == s.flat.len()
            &&& forall|k: int|
                0 <= k < audio.len() ==> call_ensures(
                    pole,
                    (
                        s.flat[k],
                        if k == 0 {
                            start.last_out
                        } else {
                            audio[k - 1]
                        },
                    ),
                    #[trigger] audio[k],
                )
            &&& 163 <= count.0 <= 164
            &&& 163 <= count.1 <= 164
            &&& end.prev == (narrow_i[2047], narrow_q[2047])
            &&& end.last_out == audio[audio.len() - 1]
            &&& end.taps_1 == start.taps_1 && end.taps_2 == start.taps_2
            &&& end.resampler.branches == start.resampler.branches
        }),
{
    let a_i = choose|m: Seq<S>| #[trigger]
        narrowed(
            convolve,
            start,
            start.history_1.0,
            start.history_2.0,
            i.0,
            m,
            between.history_1.0,
            between.history_2.0,
            between.narrow.0,
        );
    let b_i = choose|m: Seq<S>| #[trigger]
        narrowed(
            convolve,
            between,
            between.history_1.0,
            between.history_2.0,
            i.1,
            m,
            end.history_1.0,
            end.history_2.0,
            end.narrow.0,
        );
    decimators_see_one_stream(
        convolve,
        start,
        between,
        (start.history_1.0, start.history_2.0),
        (between.history_1.0, between.history_2.0),
        (end.history_1.0, end.history_2.0),
        i.0,
        i.1,
        a_i,
        b_i,
        between.narrow.0,
        end.narrow.0,
    );
    let a_q = choose|m: Seq<S>| #[trigger]
        narrowed(
            convolve,
            start,
            start.history_1.1,
            start.history_2.1,
            q.0,
            m,
            between.history_1.1,
            between.history_2.1,
            between.narrow.1,
        );
    let b_q = choose|m: Seq<S>| #[trigger]
        narrowed(
            convolve,
            between,
            between.history_1.1,
            between.history_2.1,
            q.1,
            m,
            end.history_1.1,
            end.history_2.1,
            end.narrow.1,
        );
    decimators_see_one_stream(
        convolve,
        start,
        between,
        (start.history_1.1, start.history_2.1),
        (between.history_1.1, between.history_2.1),
        (end.history_1.1, end.history_2.1),
        q.0,
        q.1,
        a_q,
        b_q,
        between.narrow.1,
        end.narrow.1,
    );
    let x = choose|flat: Seq<S>| #[trigger]
        resampled(dot, start.resampler, between.demodulated, flat) && flat.len() == count.0
            && smoothed(pole, start.last_out, flat, between.out.take(count.0));
    let y = choose|flat: Seq<S>| #[trigger]
        resampled(dot, between.resampler, end.demodulated, flat) && flat.len() == count.1
            && smoothed(pole, between.last_out, flat, end.out.take(count.1));
    lemma_demodulated_twice(angle, start, between, end);
    lemma_resampled_twice(
        dot,
        start.resampler,
        between.demodulated,
        end.demodulated,
        x,
        y,
    );
    lemma_smoothed_twice(
        pole,
        start.last_out,
        between.last_out,
        x,
        y,
        between.out.take(count.0),
        end.out.take(count.1),
    );
    let narrow_i = between.narrow.0 + end.narrow.0;
    let narrow_q = between.narrow.1 + end.narrow.1;
    assert(end.prev.0 == end.narrow.0[1023] && narrow_i[2047] == end.narrow.0[1023]);
    assert(end.prev.1 == end.narrow.1[1023] && narrow_q[2047] == end.narrow.1[1023]);
    Signals { middle_i: a_i + b_i, middle_q: a_q + b_q, flat: x + y }
}

/// Two blocks through the discriminator.
proof fn lemma_demodulated_twice<S, A: Fn(S, S, S, S) -> S>(
    angle: A,
    start: FlowView<S>,
    between: FlowView<S>,
    end: FlowView<S>,
)
    requires
        between.narrow.0.len() == NARROW,
        between.narrow.1.len() == NARROW,
        end.narrow.0.len() == NARROW,
        end.narrow.1.len() == NARROW,
        demodulated(
            angle,
            start.prev.0,
            start.prev.1,
            between.narrow.0,
            between.narrow.1,
            between.demodulated,
        ),
        between.prev.0 == latest(start.prev.0, between.narrow.0),
        between.prev.1 == latest(start.prev.1, between.narrow.1),
        demodulated(
            angle,
            between.prev.0,
            between.prev.1,
            end.narrow.0,
            end.narrow.1,
            end.demodulated,
        ),
    ensures
        ({
            let narrow_i = between.narrow.0 + end.narrow.0;
            let narrow_q = between.narrow.1 + end.narrow.1;
            let demod = between.demodulated + end.demodulated;
            forall|k: int|
                0 <= k < 2048 ==> call_ensures(
                    angle,
                    (
                        narrow_i[k],
                        narrow_q[k],
                        if k == 0 {
                            start.prev.0
                        } else {
                            narrow_i[k - 1]
                        },
                        if k == 0 {
                            start.prev.1
                        } else {
                            narrow_q[k - 1]
                        },
                    ),
                    #[trigger] demod[k],
                )
        }),
{
    let narrow_i = between.narrow.0 + end.narrow.0;
    let narrow_q = between.narrow.1 + end.narrow.1;
    let demod = between.demodulated + end.demodulated;
    assert forall|k: int| 0 <= k < 2048 implies call_ensures(
        angle,
        (
            narrow_i[k],
            narrow_q[k],
            if k == 0 {
                start.prev.0
            } else {
                narrow_i[k - 1]
            },
            if k == 0 {
                start.prev.1
            } else {
                narrow_q[k - 1]
            },
        ),
        #[trigger] demod[k],
    ) by {
        if k < 1024 {
            assert(demod[k] == between.demodulated[k]);
            assert(before(start.prev.0, between.narrow.0, k) == if k == 0 {
                start.prev.0
            } else {
                narrow_i[k - 1]
            });
            assert(before(start.prev.1, between.narrow.1, k) == if k == 0 {
                start.prev.1
            } else {
                narrow_q[k - 1]
            });
        } else {
            let j = k - 1024;
            assert(demod[k] == end.demodulated[j]);
            assert(before(between.prev.0, end.narrow.0, j) == narrow_i[k - 1]);
            assert(before(between.prev.1, end.narrow.1, j) == narrow_q[k - 1]);
        }
    }
}

/// Two blocks through the pole.
proof fn lemma_smoothed_twice<S, P: Fn(S, S) -> S>(
    pole: P,
    first: S,
    second: S,
    x: Seq<S>,
    y: Seq<S>,
    u: Seq<S>,
    v: Seq<S>,
)
    requires
        smoothed(pole, first, x, u),
        second == latest(first, u),
        smoothed(pole, second, y, v),
        u.len() > 0,
    ensures
        ({
            let flat = x + y;
            let audio = u + v;
            &&& audio.len() == flat.len()
            &&& forall|k: int|
                0 <= k < audio.len() ==> call_ensures(
                    pole,
                    (
                        flat[k],
                        if k == 0 {
                            first
                        } else {
                            audio[k - 1]
                        },
                    ),
                    #[trigger] audio[k],
                )
        }),
{
    let flat = x + y;
    let audio = u + v;
    let n = u.len() as int;
    assert forall|k: int| 0 <= k < audio.len() implies call_ensures(
        pole,
        (
            flat[k],
            if k == 0 {
                first
            } else {
                audio[k - 1]
            },
        ),
        #[trigger] audio[k],
    ) by {
        if k < n {
            assert(audio[k] == u[k]);
            assert(before(first, u, k) == if k == 0 {
                first
            } else {
                audio[k - 1]
            });
        } else {
            assert(audio[k] == v[k - n]);
            assert(before(second, v, k - n) == audio[k - 1]);
        }
    }
}

} // verus!
