//! What a frame adds to the waterfall.

use vstd::prelude::*;

use crate::fft::laws::{frequencies_rise, pairs_go_in_as_they_come};
use crate::fft::{centred, spectrum_of};
use crate::tui::sampling::{block_levels, levels_of, pushed, window_levels};
use crate::tui::signal_laws::waterfall_scrolls_by_one;
use crate::tui::signal_view::SignalState;

verus! {

/// Several spectra between two lines leave the larger of each bin.
proof fn lemma_pushed(v: SignalState, spectra: Seq<Seq<i32>>, b: int)
    requires
        v.wf(),
        0 <= b < v.bins,
        forall|k: int| 0 <= k < spectra.len() ==> (#[trigger] spectra[k]).len() == v.bins,
    ensures
        ({
            let t = pushed(v, spectra);
            &&& t.wf()
            &&& t == (SignalState { pending: t.pending, has_pending: t.has_pending, ..v })
            &&& t.has_pending <==> v.has_pending || spectra.len() > 0
            &&& t.pending[b] >= v.pending[b]
            &&& forall|k: int|
                0 <= k < spectra.len() ==> (#[trigger] spectra[k])[b] <= t.pending[b]
            &&& t.pending[b] == v.pending[b] || exists|k: int|
                0 <= k < spectra.len() && (#[trigger] spectra[k])[b] == t.pending[b]
        }),
    decreases spectra.len(),
{
    if spectra.len() > 0 {
        let earlier = spectra.drop_last();
        lemma_pushed(v, earlier, b);
        let before = pushed(v, earlier);
        let t = pushed(v, spectra);
        let last = spectra.len() - 1;
        assert(spectra[last] == spectra.last());
        assert forall|k: int| 0 <= k < spectra.len() implies (#[trigger] spectra[k])[b]
            <= t.pending[b] by {
            if k < last {
                assert(earlier[k] == spectra[k]);
            }
        }
        if t.pending[b] != v.pending[b] {
            if t.pending[b] == before.pending[b] {
                let k = choose|k: int|
                    0 <= k < earlier.len() && (#[trigger] earlier[k])[b] == before.pending[b];
                assert(spectra[k][b] == t.pending[b]);
            } else {
                assert(spectra[last][b] == t.pending[b]);
            }
        }
    }
}

/// The line a frame adds to the waterfall has in each bin the largest of what the
/// spectra of the frame have there, and every older line is one further down.
pub proof fn a_frame_adds_the_peaks(v: SignalState, spectra: Seq<Seq<i32>>, b: int)
    requires
        v.wf(),
        v.history > 0,
        v.rows.len() <= v.history,
        !v.has_pending,
        0 <= b < v.bins,
        v.pending[b] == i32::MIN,
        spectra.len() > 0,
        forall|k: int| 0 <= k < spectra.len() ==> (#[trigger] spectra[k]).len() == v.bins,
    ensures
        ({
            let t = pushed(v, spectra).commit();
            &&& forall|k: int|
                0 <= k < spectra.len() ==> (#[trigger] spectra[k])[b] <= t.rows[0][b]
            &&& exists|k: int| 0 <= k < spectra.len() && (#[trigger] spectra[k])[b] == t.rows[0][b]
            &&& forall|i: int|
                0 <= i && i + 1 < t.rows.len() ==> #[trigger] t.rows[i + 1] == v.rows[i]
            &&& t.rows.len() == if v.rows.len() < v.history {
                v.rows.len() + 1
            } else {
                v.history
            }
        }),
{
    lemma_pushed(v, spectra, b);
    let p = pushed(v, spectra);
    waterfall_scrolls_by_one(p);
    assert(p.commit().rows[0] == p.pending);
    if p.pending[b] == v.pending[b] {
        assert(spectra[0][b] <= p.pending[b]);
        assert(spectra[0][b] == p.pending[b]);
    }
}

/// The levels of a spectrum, and the samples and bins they come from.
pub open spec fn levels_from<
    S,
    C,
    P: Fn(S, S) -> C,
    W: Fn(C, usize) -> C,
    F: Fn(C, usize, C) -> C,
    L: Fn(C) -> i32,
>(
    pair: P,
    window: W,
    combine: F,
    level: L,
    block: Seq<S>,
    from: int,
    n: int,
    samples: Seq<C>,
    bins: Seq<C>,
    levels: Seq<i32>,
) -> bool {
    &&& samples.len() == n
    &&& forall|k: int|
        0 <= k < n ==> call_ensures(
            pair,
            (block[from + 2 * k], block[from + 2 * k + 1]),
            #[trigger] samples[k],
        )
    &&& spectrum_of(window, combine, samples, bins)
    &&& bins.len() == n
    &&& levels.len() == n
    &&& forall|k: int|
        0 <= k < n ==> call_ensures(
            level,
            (if k < n / 2 {
                bins[k + n / 2]
            } else {
                bins[k - n / 2]
            },),
            #[trigger] levels[k],
        )
}

/// Spectrum `i` of a block is that of its pairs `n * i` to `n * i + n - 1`, the lowest
/// frequency first.
pub proof fn every_window_is_its_part_of_the_block<
    S,
    C,
    P: Fn(S, S) -> C,
    W: Fn(C, usize) -> C,
    F: Fn(C, usize, C) -> C,
    L: Fn(C) -> i32,
>(
    pair: P,
    window: W,
    combine: F,
    level: L,
    n: nat,
    block: Seq<S>,
    spectra: Seq<Seq<i32>>,
    i: int,
) -> (r: (Seq<C>, Seq<C>))
    requires
        n > 0,
        n % 2 == 0,
        block_levels(pair, window, combine, level, n, block, spectra),
        0 <= i < spectra.len(),
        2 * n * i + 2 * n <= block.len(),
    ensures
        levels_from(
            pair,
            window,
            combine,
            level,
            block,
            2 * n * i,
            n as int,
            r.0,
            r.1,
            spectra[i],
        ),
{
    let from = 2 * n * i;
    assert(from >= 0) by (nonlinear_arith)
        requires
            from == 2 * n * i,
            i >= 0,
    ;
    let iq = block.subrange(from, from + 2 * n);
    let levels = spectra[i];
    assert(window_levels(pair, window, combine, level, n, iq, levels));
    let (left_over, samples, bins) = choose|left_over: Seq<C>, samples: Seq<C>, bins: Seq<C>|
        left_over.len() == n && #[trigger] levels_of(
            pair,
            window,
            combine,
            level,
            iq,
            left_over,
            samples,
            bins,
            levels,
        );
    assert forall|k: int| 0 <= k < n implies call_ensures(
        pair,
        (block[from + 2 * k], block[from + 2 * k + 1]),
        #[trigger] samples[k],
    ) by {
        pairs_go_in_as_they_come(pair, left_over, 0, iq, samples, k);
        assert(iq[2 * k] == block[from + 2 * k] && iq[2 * k + 1] == block[from + 2 * k + 1]);
    }
    lemma_as_many_bins(window, combine, samples, bins);
    assert forall|k: int| 0 <= k < n implies call_ensures(
        level,
        (if k < n / 2 {
            bins[k + n / 2]
        } else {
            bins[k - n / 2]
        },),
        #[trigger] levels[k],
    ) by {
        if k < n / 2 {
            frequencies_rise(bins, k);
        } else {
            frequencies_rise(bins, k - n / 2);
        }
        assert(call_ensures(level, (centred(bins)[k],), levels[k]));
    }
    (samples, bins)
}

/// There are as many bins as samples.
proof fn lemma_as_many_bins<C, W: Fn(C, usize) -> C, F: Fn(C, usize, C) -> C>(
    window: W,
    combine: F,
    samples: Seq<C>,
    bins: Seq<C>,
)
    requires
        spectrum_of(window, combine, samples, bins),
    ensures
        bins.len() == samples.len(),
{
}

} // verus!
