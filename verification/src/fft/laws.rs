//! What a spectrum says of the samples it was made of.

use vstd::arithmetic::power2::pow2;
use vstd::prelude::*;

use crate::fft::dft::{combines, transform_is_the_dft, Turns};
use crate::fft::{centred, filled, fitting, reversed, spectrum_of, transform, windowed};

verus! {

/// Frequencies rise from left to right: from the middle on stand the bins of 0 Hz and
/// above, in order, and before the middle those below, in order.
pub proof fn frequencies_rise<C>(bins: Seq<C>, j: int)
    requires
        bins.len() > 0,
        bins.len() % 2 == 0,
        0 <= j < bins.len() as int / 2,
    ensures
        centred(bins).len() == bins.len(),
        centred(bins)[bins.len() as int / 2 + j] == bins[j],
        centred(bins)[j] == bins[bins.len() as int / 2 + j],
{
    let n = bins.len() as int;
    vstd::arithmetic::div_mod::lemma_small_mod((j + n / 2) as nat, n as nat);
    vstd::arithmetic::div_mod::lemma_mod_add_multiples_vanish(j, n);
    vstd::arithmetic::div_mod::lemma_small_mod(j as nat, n as nat);
    assert(n / 2 + j + n / 2 == j + n);
}

/// The window is filled in the order of the stream: sample `offset + k` is made of
/// value `2k`, which is I, and value `2k + 1`, which is Q; the others stay.
pub proof fn pairs_go_in_as_they_come<S, C, P: Fn(S, S) -> C>(
    pair: P,
    before: Seq<C>,
    offset: int,
    iq: Seq<S>,
    after: Seq<C>,
    j: int,
)
    requires
        filled(pair, before, offset, iq, after),
        0 <= offset,
        offset + iq.len() / 2 <= before.len(),
        0 <= j < before.len(),
    ensures
        after.len() == before.len(),
        offset <= j < offset + iq.len() / 2 ==> call_ensures(
            pair,
            (iq[2 * (j - offset)], iq[2 * (j - offset) + 1]),
            after[j],
        ),
        j < offset || offset + iq.len() / 2 <= j ==> after[j] == before[j],
{
    if offset <= j < offset + iq.len() / 2 {
        let k = j - offset;
        assert(after[offset + k] == after[j]);
    }
}

/// A window takes all the pairs there is room for and none beyond.
pub proof fn a_window_takes_what_fits(n: int, offset: int, pairs: int)
    requires
        0 <= offset <= n,
        pairs >= 0,
    ensures
        0 <= fitting(n, offset, pairs) <= pairs,
        offset + fitting(n, offset, pairs) <= n,
        fitting(n, offset, pairs) == pairs || offset + fitting(n, offset, pairs) == n,
{
}

/// A spectrum is the discrete Fourier transform of the shaped samples: bin `k` is the
/// sum of all of them, sample `j` shaped by weight `j` and turned by `j * k` steps.
pub proof fn spectrum_is_the_dft<C, W: Fn(C, usize) -> C, F: Fn(C, usize, C) -> C>(
    window: W,
    combine: F,
    r: Turns<C>,
    shape: spec_fn(C, int) -> C,
    samples: Seq<C>,
    bins: Seq<C>,
    bits: nat,
)
    requires
        r.lawful(samples.len() as int),
        combines(combine, r, samples.len()),
        samples.len() <= usize::MAX,
        samples.len() == pow2(bits),
        forall|c: C, k: usize, y: C| #[trigger]
            call_ensures(window, (c, k), y) ==> y == shape(c, k as int),
        spectrum_of(window, combine, samples, bins),
    ensures
        r.dft(Seq::new(samples.len(), |k: int| shape(samples[k], k)), bins, 1),
{
    let n = samples.len();
    let xs = choose|xs: Seq<C>|
        #[trigger] windowed(window, samples, xs) && transform(combine, xs, bins, n);
    let shaped = Seq::new(n, |k: int| shape(samples[k], k));
    assert forall|k: int| 0 <= k < n implies xs[k] == shaped[k] by {
        assert(call_ensures(window, (samples[k], k as usize), xs[k]));
    }
    assert(xs =~= shaped);
    transform_is_the_dft(combine, r, xs, bins, bits, 1, n);
}

/// Reversing the bits puts the lowest on top, and below it the reverse of the rest.
pub proof fn lowest_bit_comes_first(bits: nat, x: nat)
    requires
        bits > 0,
        x < pow2(bits),
    ensures
        x % 2 == 0 ==> reversed(bits, x) == reversed((bits - 1) as nat, x / 2),
        x % 2 == 1 ==> reversed(bits, x) == pow2((bits - 1) as nat) + reversed(
            (bits - 1) as nat,
            x / 2,
        ),
        reversed(0, x) == 0,
{
    let p = pow2((bits - 1) as nat);
    assert(0 * p == 0 && 1 * p == p) by (nonlinear_arith);
}

} // verus!
