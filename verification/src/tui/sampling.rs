//! From the newest block of samples to the next line of the waterfall.

use vstd::prelude::*;
use vstd::slice::slice_subrange;

use crate::fft::{centred, filled, spectrum_of, Fft};
use crate::spmc::{Ring, RingConsumer};
use crate::tui::signal_view::{SignalState, SignalView};

verus! {

/// The levels of a spectrum that a window of samples may give.
pub open spec fn levels_of<
    S,
    C,
    P: Fn(S, S) -> C,
    W: Fn(C, usize) -> C,
    F: Fn(C, usize, C) -> C,
    L: Fn(C) -> i32,
>(
    pair: P,
    window: W,
    combine: F,
    level: L,
    iq: Seq<S>,
    left_over: Seq<C>,
    samples: Seq<C>,
    bins: Seq<C>,
    levels: Seq<i32>,
) -> bool {
    &&& filled(pair, left_over, 0, iq, samples)
    &&& spectrum_of(window, combine, samples, bins)
    &&& levels.len() == bins.len()
    &&& forall|k: int|
        0 <= k < levels.len() ==> call_ensures(level, (centred(bins)[k],), #[trigger] levels[k])
}

/// The levels of the spectrum of one window.
pub open spec fn window_levels<
    S,
    C,
    P: Fn(S, S) -> C,
    W: Fn(C, usize) -> C,
    F: Fn(C, usize, C) -> C,
    L: Fn(C) -> i32,
>(pair: P, window: W, combine: F, level: L, n: nat, iq: Seq<S>, levels: Seq<i32>) -> bool {
    exists|left_over: Seq<C>, samples: Seq<C>, bins: Seq<C>|
        left_over.len() == n && #[trigger] levels_of(
            pair,
            window,
            combine,
            level,
            iq,
            left_over,
            samples,
            bins,
            levels,
        )
}

/// The levels of the spectra of the windows of a block, one behind the other.
pub open spec fn block_levels<
    S,
    C,
    P: Fn(S, S) -> C,
    W: Fn(C, usize) -> C,
    F: Fn(C, usize, C) -> C,
    L: Fn(C) -> i32,
>(
    pair: P,
    window: W,
    combine: F,
    level: L,
    n: nat,
    block: Seq<S>,
    spectra: Seq<Seq<i32>>,
) -> bool {
    forall|i: int|
        0 <= i < spectra.len() ==> window_levels(
            pair,
            window,
            combine,
            level,
            n,
            block.subrange(2 * n * i, 2 * n * i + 2 * n),
            #[trigger] spectra[i],
        )
}

/// The view after several spectra.
pub open spec fn pushed(v: SignalState, spectra: Seq<Seq<i32>>) -> SignalState
    decreases spectra.len(),
{
    if spectra.len() == 0 {
        v
    } else {
        pushed(v, spectra.drop_last()).push(spectra.last())
    }
}

/// The level of each bin.
fn level_bins<C: Copy, L: Fn(C) -> i32>(bins: &Vec<C>, level: &L) -> (levels: Vec<i32>)
    requires
        forall|c: C| #[trigger] call_requires(*level, (c,)),
    ensures
        levels@.len() == bins@.len(),
        forall|k: int|
            0 <= k < levels@.len() ==> call_ensures(*level, (bins@[k],), #[trigger] levels@[k]),
{
    let mut levels: Vec<i32> = Vec::new();
    while levels.len() < bins.len()
        invariant
            levels@.len() <= bins@.len(),
            forall|c: C| #[trigger] call_requires(*level, (c,)),
            forall|k: int|
                0 <= k < levels@.len() ==> call_ensures(*level, (bins@[k],), #[trigger] levels@[k]),
        decreases bins@.len() - levels@.len(),
    {
        let i: usize = levels.len();
        levels.push(level(bins[i]));
    }
    levels
}

/// Make a line of the newest block.
///
/// Far more blocks come in than are drawn, so the backlog is abandoned first;
/// what is read is then the newest block, not one from the middle of the ring.
/// With nothing to read, the view stays as it is.
pub fn sample<
    S: Copy + Default,
    C: Copy,
    P: Fn(S, S) -> C,
    W: Fn(C, usize) -> C,
    F: Fn(C, usize, C) -> C,
    L: Fn(C) -> i32,
    const SLOTS: usize,
    const BLOCK: usize,
    const N: usize,
>(
    view: &mut SignalView,
    fft: &mut Fft<C, N>,
    consumer: &RingConsumer,
    ring: &mut Ring<S, SLOTS, BLOCK>,
    pair: &P,
    window: &W,
    combine: &F,
    level: &L,
)
    requires
        old(view)@.wf(),
        old(view)@.history > 0,
        old(fft).wf(),
        old(fft).offset() == 0,
        old(ring).wf(),
        consumer@ < old(ring)@.cursors.len(),
        2 * N <= usize::MAX,
        BLOCK % ((2 * N) as usize) == 0,
        forall|a: S, b: S| #[trigger] call_requires(*pair, (a, b)),
        forall|c: C, k: usize| k < N ==> #[trigger] call_requires(*window, (c, k)),
        forall|a: C, k: usize, b: C| k < N ==> #[trigger] call_requires(*combine, (a, k, b)),
        forall|c: C| #[trigger] call_requires(*level, (c,)),
    ensures
        final(view)@.wf(),
        final(fft).wf(),
        final(fft).offset() == 0,
        final(ring).wf(),
        final(ring)@ == old(ring)@.seek_latest(consumer@ as int).read(consumer@ as int),
        match old(ring)@.seek_latest(consumer@ as int).claim(consumer@ as int) {
            None => final(view)@ == old(view)@,
            Some(seq) => exists|spectra: Seq<Seq<i32>>|
                spectra.len() == BLOCK / ((2 * N) as usize) && #[trigger] block_levels(
                    *pair,
                    *window,
                    *combine,
                    *level,
                    N as nat,
                    old(ring)@.block(seq),
                    spectra,
                ) && final(view)@ == pushed(old(view)@, spectra).commit(),
        },
{
    proof {
        fft.lemma_size();
    }
    let ghost held = ring@.seek_latest(consumer@ as int);
    consumer.seek_latest(ring);
    match consumer.read(ring) {
        Err(_) => {},
        Ok(buf) => {
            let ghost block = buf@;
            let ghost seq = held.claim(consumer@ as int)->0;
            let step: usize = 2 * N;
            let len: usize = buf.len();
            let windows: usize = len / step;
            let ghost mut spectra: Seq<Seq<i32>> = Seq::empty();
            let ghost start = view@;
            let mut i: usize = 0;
            while i < windows
                invariant
                    i <= windows,
                    step == 2 * N,
                    N >= 2,
                    buf@ == block,
                    len == block.len(),
                    windows == len / step,
                    start.history > 0,
                    view@.wf(),
                    fft.wf(),
                    fft.offset() == 0,
                    spectra.len() == i,
                    view@ == pushed(start, spectra),
                    view@.history == start.history,
                    block_levels(*pair, *window, *combine, *level, N as nat, block, spectra),
                    forall|a: S, b: S| #[trigger] call_requires(*pair, (a, b)),
                    forall|c: C, k: usize| k < N ==> #[trigger] call_requires(*window, (c, k)),
                    forall|a: C, k: usize, b: C|
                        k < N ==> #[trigger] call_requires(*combine, (a, k, b)),
                    forall|c: C| #[trigger] call_requires(*level, (c,)),
                decreases windows - i,
            {
                proof {
                    lemma_window(block.len() as int, step as int, i as int);
                }
                let iq = slice_subrange(buf, i * step, i * step + step);
                let ghost left_over = fft.samples();
                assert(iq@.take(2 * N) =~= iq@);
                proof {
                    fft.lemma_size();
                }
                match fft.push(iq, pair, window, combine) {
                    None => {},
                    Some(spectrum) => {
                        let levels = level_bins(&spectrum, level);
                        view.push(&levels);
                        proof {
                            let bins = choose|bins: Seq<C>| #[trigger]
                                spectrum_of(*window, *combine, fft.samples(), bins)
                                    && spectrum@ == centred(bins);
                            assert(levels_of(
                                *pair,
                                *window,
                                *combine,
                                *level,
                                iq@,
                                left_over,
                                fft.samples(),
                                bins,
                                levels@,
                            ));
                            let more = spectra.push(levels@);
                            assert(more.drop_last() =~= spectra);
                            assert(iq@ == block.subrange(2 * N * i, 2 * N * i + 2 * N)) by {
                                assert(i * step == 2 * N * i) by (nonlinear_arith)
                                    requires
                                        step == 2 * N,
                                ;
                            }
                            spectra = more;
                        }
                    },
                }
                i += 1;
            }
            view.commit();
            proof {
                assert(held.block(seq) == old(ring)@.block(seq));
                assert(block_levels(
                    *pair,
                    *window,
                    *combine,
                    *level,
                    N as nat,
                    old(ring)@.block(seq),
                    spectra,
                ));
            }
        },
    }
}

/// The windows of a block lie in it.
proof fn lemma_window(len: int, step: int, i: int)
    requires
        0 < step,
        0 <= i < len / step,
    ensures
        0 <= i * step,
        i * step + step <= len,
{
    vstd::arithmetic::div_mod::lemma_fundamental_div_mod(len, step);
    assert(0 <= i * step && i * step + step <= len) by (nonlinear_arith)
        requires
            0 < step,
            0 <= i,
            i + 1 <= len / step,
            len == step * (len / step) + len % step,
            len % step >= 0,
    ;
}

} // verus!
