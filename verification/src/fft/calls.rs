//! What the calls on a window of samples do, sample by sample and bin by bin.

use vstd::arithmetic::power2::pow2;
use vstd::prelude::*;

use crate::fft::dft::{combines, Turns};
use crate::fft::laws::{pairs_go_in_as_they_come, spectrum_is_the_dft};
use crate::fft::{bit_reversed, fitting, post_process, reversed, spectrum_of, Fft};

verus! {

/// The first `n` samples, sample `j` turned by `j * k` steps, summed from the first on.
pub open spec fn turned_sum<C>(r: Turns<C>, xs: Seq<C>, k: int, n: int) -> C
    decreases n,
{
    if n <= 1 {
        (r.turn)(0, xs[0])
    } else {
        (r.plus)(turned_sum(r, xs, k, n - 1), (r.turn)((n - 1) * k, xs[n - 1]))
    }
}

proof fn lemma_turned_sum<C>(r: Turns<C>, xs: Seq<C>, k: int, n: int)
    ensures
        r.sum(xs, k, 1, n) == turned_sum(r, xs, k, n),
    decreases n,
{
    if n <= 1 {
        assert(0 * k * 1 == 0);
    } else {
        lemma_turned_sum(r, xs, k, n - 1);
        assert((n - 1) * k * 1 == (n - 1) * k);
    }
}

/// Bin `k` of the transform of a window is the sum of all its samples, sample `j` shaped
/// by weight `j` and turned by `j * k` steps of the circle.
pub proof fn bins_are_sums_of_turned_samples<
    C: Copy,
    W: Fn(C, usize) -> C,
    F: Fn(C, usize, C) -> C,
    const N: usize,
>(
    f: &Fft<C, N>,
    window: W,
    combine: F,
    r: Turns<C>,
    shape: spec_fn(C, int) -> C,
    bins: Vec<C>,
    bits: nat,
    k: int,
)
    requires
        f.wf(),
        N == pow2(bits),
        r.lawful(N as int),
        combines(combine, r, N as nat),
        forall|c: C, j: usize, y: C| #[trigger]
            call_ensures(window, (c, j), y) ==> y == shape(c, j as int),
        call_ensures(Fft::<C, N>::dft_fwd::<W, F>, (f, &window, &combine), bins),
        0 <= k < N,
    ensures
        bins@.len() == N,
        bins@[k] == turned_sum(
            r,
            Seq::new(N as nat, |j: int| shape(f.samples()[j], j)),
            k,
            N as int,
        ),
{
    f.lemma_size();
    spectrum_is_the_dft(window, combine, r, shape, f.samples(), bins@, bits);
    let xs = Seq::new(f.samples().len(), |j: int| shape(f.samples()[j], j));
    assert(xs =~= Seq::new(N as nat, |j: int| shape(f.samples()[j], j)));
    assert(bins@[k] == r.sum(xs, k, 1, xs.len() as int));
    lemma_turned_sum(r, xs, k, N as int);
}

/// Pairs fill a window from where it was left, I first, and those that have no room are
/// lost. A window that is full hands out its spectrum, the lower frequencies first, and
/// starts over; any other hands out nothing and goes on from there.
pub proof fn a_full_window_hands_out_its_spectrum<
    S: Copy,
    C: Copy,
    P: Fn(S, S) -> C,
    W: Fn(C, usize) -> C,
    F: Fn(C, usize, C) -> C,
    const N: usize,
>(
    f: &mut Fft<C, N>,
    iq: &[S],
    pair: P,
    window: W,
    combine: F,
    r: Option<Vec<C>>,
    j: int,
)
    requires
        old(f).wf(),
        call_ensures(
            Fft::<C, N>::push::<S, P, W, F>,
            (f, iq, &pair, &window, &combine),
            r,
        ),
        0 <= j < N,
    ensures
        ({
            let from = old(f).offset();
            let pairs = iq@.len() as int / 2;
            &&& from <= j < from + pairs ==> call_ensures(
                pair,
                (iq@[2 * (j - from)], iq@[2 * (j - from) + 1]),
                final(f).samples()[j],
            )
            &&& j < from || from + pairs <= j ==> final(f).samples()[j] == old(f).samples()[j]
            &&& r is Some <==> from + pairs >= N
            &&& r is None ==> final(f).offset() == from + pairs
            &&& r is Some ==> final(f).offset() == 0
            &&& r matches Some(spectrum) ==> exists|bins: Seq<C>|
                {
                    &&& #[trigger] spectrum_of(window, combine, final(f).samples(), bins)
                    &&& bins.len() == spectrum@.len()
                    &&& forall|i: int|
                        0 <= i < bins.len() ==> #[trigger] spectrum@[i] == bins[(i + bins.len()
                            / 2) % bins.len() as int]
                }
        }),
{
    old(f).lemma_size();
    let from = old(f).offset() as int;
    let pairs = iq@.len() as int / 2;
    let n = fitting(N as int, from, pairs);
    pairs_go_in_as_they_come(
        pair,
        old(f).samples(),
        from,
        iq@.take(2 * n),
        final(f).samples(),
        j,
    );
    if let Some(spectrum) = r {
        let bins = choose|bins: Seq<C>|
            #[trigger] spectrum_of(window, combine, final(f).samples(), bins) && spectrum@
                == crate::fft::centred(bins);
        assert(spectrum_of(window, combine, final(f).samples(), bins));
    }
}

/// A new window is silent and takes its first sample next.
pub proof fn new_window_is_silent<C: Copy, const N: usize>(zero: C, f: Fft<C, N>)
    requires
        call_ensures(Fft::<C, N>::new, (zero,), f),
    ensures
        f.offset() == 0,
        f.samples().len() == N,
        forall|i: int| 0 <= i < N ==> f.samples()[i] == zero,
{
}

/// Turning a spectrum puts its upper half first: the bins keep their order around the
/// circle.
pub proof fn halves_change_places<C: Copy>(bins: Vec<C>, out: Vec<C>, i: int)
    requires
        bins@.len() > 0,
        call_ensures(post_process::<C>, (&bins,), out),
        0 <= i < bins@.len(),
    ensures
        ({
            let n = bins@.len() as int;
            &&& out@.len() == n
            &&& i < n - n / 2 ==> out@[i] == bins@[i + n / 2]
            &&& i >= n - n / 2 ==> out@[i] == bins@[i - (n - n / 2)]
        }),
{
    let n = bins@.len() as int;
    if i < n - n / 2 {
        vstd::arithmetic::div_mod::lemma_small_mod((i + n / 2) as nat, n as nat);
    } else {
        let k = i - (n - n / 2);
        vstd::arithmetic::div_mod::lemma_mod_add_multiples_vanish(k, n);
        vstd::arithmetic::div_mod::lemma_small_mod(k as nat, n as nat);
    }
}

/// Reversing bits puts the lowest on top, and below it the reverse of the rest.
pub proof fn bits_change_ends(x: usize, bits: u32, r: usize, rest: usize)
    requires
        0 < bits < usize::BITS,
        call_ensures(bit_reversed, (x, bits), r),
        call_ensures(bit_reversed, ((x / 2) as usize, (bits - 1) as u32), rest),
    ensures
        r == (x % 2) * pow2((bits - 1) as nat) + rest,
        r < pow2(bits as nat),
{
    crate::fft::lemma_reversed_bound(bits as nat, x as nat);
    assert(reversed(bits as nat, x as nat) == (x as nat % 2) * pow2((bits - 1) as nat) + reversed(
        (bits - 1) as nat,
        x as nat / 2,
    ));
}

} // verus!
