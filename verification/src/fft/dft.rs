//! The butterfly network computes the discrete Fourier transform: bin `k` is the
//! sum of all samples, sample `j` turned by `j * k` steps.

use vstd::arithmetic::power2::pow2;
use vstd::prelude::*;

use crate::fft::{evens, merged, odds, transform};

verus! {

/// A sum, and turning a value by so many steps of a full circle.
#[verifier::reject_recursive_types(C)]
pub struct Turns<C> {
    pub plus: spec_fn(C, C) -> C,
    pub turn: spec_fn(int, C) -> C,
}

impl<C> Turns<C> {
    /// Sums can be taken in any order; turns add up, a full circle of `total`
    /// steps is none, and a sum is turned by turning what is summed.
    #[verifier::opaque]
    pub open spec fn lawful(self, total: int) -> bool {
        &&& forall|a: C, b: C| #[trigger] (self.plus)(a, b) == (self.plus)(b, a)
        &&& forall|a: C, b: C, c: C|
            #[trigger] (self.plus)((self.plus)(a, b), c) == (self.plus)(a, (self.plus)(b, c))
        &&& forall|a: C| #[trigger] (self.turn)(0, a) == a
        &&& forall|j: int, k: int, a: C|
            #[trigger] (self.turn)(j, (self.turn)(k, a)) == (self.turn)(j + k, a)
        &&& forall|k: int, a: C| #[trigger] (self.turn)(k, a) == (self.turn)(k + total, a)
        &&& forall|k: int, a: C, b: C|
            #[trigger] (self.turn)(k, (self.plus)(a, b)) == (self.plus)(
                (self.turn)(k, a),
                (self.turn)(k, b),
            )
    }

    /// Sample `j` as it goes into bin `k`.
    pub open spec fn term(self, xs: Seq<C>, k: int, step: int, j: int) -> C {
        (self.turn)(j * k * step, xs[j])
    }

    /// The first `n` samples as they go into bin `k`, summed.
    pub open spec fn sum(self, xs: Seq<C>, k: int, step: int, n: int) -> C
        decreases n,
    {
        if n <= 1 {
            self.term(xs, k, step, 0)
        } else {
            (self.plus)(self.sum(xs, k, step, n - 1), self.term(xs, k, step, n - 1))
        }
    }

    /// `ys` is the discrete Fourier transform of `xs`.
    pub open spec fn dft(self, xs: Seq<C>, ys: Seq<C>, step: int) -> bool {
        &&& ys.len() == xs.len()
        &&& forall|k: int|
            0 <= k < ys.len() ==> #[trigger] ys[k] == self.sum(xs, k, step, xs.len() as int)
    }

    proof fn commutes(self, total: int, a: C, b: C)
        requires
            self.lawful(total),
        ensures
            (self.plus)(a, b) == (self.plus)(b, a),
    {
        reveal(Turns::lawful);
    }

    proof fn associates(self, total: int, a: C, b: C, c: C)
        requires
            self.lawful(total),
        ensures
            (self.plus)((self.plus)(a, b), c) == (self.plus)(a, (self.plus)(b, c)),
    {
        reveal(Turns::lawful);
    }

    proof fn turns_add(self, total: int, j: int, k: int, a: C)
        requires
            self.lawful(total),
        ensures
            (self.turn)(j, (self.turn)(k, a)) == (self.turn)(j + k, a),
    {
        reveal(Turns::lawful);
    }

    proof fn distributes(self, total: int, k: int, a: C, b: C)
        requires
            self.lawful(total),
        ensures
            (self.turn)(k, (self.plus)(a, b)) == (self.plus)((self.turn)(k, a), (self.turn)(k, b)),
    {
        reveal(Turns::lawful);
    }

    /// Any number of full circles is none.
    proof fn circles(self, total: int, k: int, m: int, a: C)
        requires
            self.lawful(total),
            m >= 0,
        ensures
            (self.turn)(k + m * total, a) == (self.turn)(k, a),
        decreases m,
    {
        if m > 0 {
            self.circles(total, k, m - 1, a);
            let j = k + (m - 1) * total;
            assert((self.turn)(j, a) == (self.turn)(j + total, a)) by {
                reveal(Turns::lawful);
            }
            assert(j + total == k + m * total) by (nonlinear_arith)
                requires
                    j == k + (m - 1) * total,
            ;
        } else {
            assert(m * total == 0) by (nonlinear_arith)
                requires
                    m == 0,
            ;
        }
    }

    /// Four values can be summed in two pairs either way.
    proof fn regroups(self, total: int, a: C, b: C, c: C, d: C)
        requires
            self.lawful(total),
        ensures
            (self.plus)((self.plus)((self.plus)(a, b), c), d) == (self.plus)(
                (self.plus)(a, c),
                (self.plus)(b, d),
            ),
    {
        self.associates(total, a, b, c);
        self.commutes(total, b, c);
        self.associates(total, a, c, b);
        self.associates(total, (self.plus)(a, c), b, d);
    }

    /// Half a circle of bins further on, every term of a half-length sum has
    /// gone full circle.
    proof fn sum_repeats(self, xs: Seq<C>, k: int, half: int, step: int, total: int, n: int)
        requires
            self.lawful(total),
            total == half * step,
            n >= 1,
        ensures
            self.sum(xs, k + half, step, n) == self.sum(xs, k, step, n),
        decreases n,
    {
        let j = n - 1;
        assert(j * (k + half) * step == j * k * step + j * total) by (nonlinear_arith)
            requires
                total == half * step,
        ;
        self.circles(total, j * k * step, j, xs[j]);
        if n > 1 {
            self.sum_repeats(xs, k, half, step, total, n - 1);
        } else {
            assert(0 * (k + half) * step == 0 && 0 * k * step == 0) by (nonlinear_arith);
        }
    }

    /// The sum over all samples is that over the even ones and that over the odd
    /// ones, the latter turned by a step more for each bin.
    proof fn sum_splits(self, xs: Seq<C>, k: int, step: int, total: int, m: int)
        requires
            self.lawful(total),
            m >= 1,
            2 * m <= xs.len(),
        ensures
            self.sum(xs, k, step, 2 * m) == (self.plus)(
                self.sum(evens(xs), k, 2 * step, m),
                (self.turn)(k * step, self.sum(odds(xs), k, 2 * step, m)),
            ),
        decreases m,
    {
        let e = evens(xs);
        let o = odds(xs);
        let j = m - 1;
        // The two new terms.
        assert(2 * j * k * step == j * k * (2 * step)) by (nonlinear_arith);
        assert((2 * j + 1) * k * step == k * step + j * k * (2 * step)) by (nonlinear_arith);
        assert(e[j] == xs[2 * j]);
        assert(o[j] == xs[2 * j + 1]);
        let te = self.term(e, k, 2 * step, j);
        let to = self.term(o, k, 2 * step, j);
        assert(self.term(xs, k, step, 2 * j) == te);
        self.turns_add(total, k * step, j * k * (2 * step), o[j]);
        assert(self.term(xs, k, step, 2 * j + 1) == (self.turn)(k * step, to));
        if m == 1 {
            assert(self.sum(xs, k, step, 1) == self.term(xs, k, step, 0));
            assert(self.sum(xs, k, step, 2) == (self.plus)(
                self.sum(xs, k, step, 1),
                self.term(xs, k, step, 1),
            ));
        } else {
            self.sum_splits(xs, k, step, total, m - 1);
            let se = self.sum(e, k, 2 * step, m - 1);
            let so = self.sum(o, k, 2 * step, m - 1);
            self.distributes(total, k * step, so, to);
            self.regroups(total, se, (self.turn)(k * step, so), te, (self.turn)(k * step, to));
            assert(self.sum(xs, k, step, 2 * m - 1) == (self.plus)(
                self.sum(xs, k, step, 2 * m - 2),
                self.term(xs, k, step, 2 * m - 2),
            ));
            assert(self.sum(xs, k, step, 2 * m) == (self.plus)(
                self.sum(xs, k, step, 2 * m - 1),
                self.term(xs, k, step, 2 * m - 1),
            ));
        }
    }
}

/// `combine` adds to an even output an odd one, turned.
pub open spec fn combines<C, F: Fn(C, usize, C) -> C>(
    combine: F,
    r: Turns<C>,
    total: nat,
) -> bool {
    forall|a: C, k: usize, b: C, y: C|
        k < total && #[trigger] call_ensures(combine, (a, k, b), y) ==> y == (r.plus)(
            a,
            (r.turn)(k as int, b),
        )
}

/// The fast transform is the discrete Fourier transform, in any arithmetic in
/// which sums can be taken in any order and turns add up.
pub proof fn transform_is_the_dft<C, F: Fn(C, usize, C) -> C>(
    combine: F,
    r: Turns<C>,
    xs: Seq<C>,
    ys: Seq<C>,
    bits: nat,
    step: int,
    total: nat,
)
    requires
        r.lawful(total as int),
        combines(combine, r, total),
        total <= usize::MAX,
        xs.len() == pow2(bits),
        total == xs.len() * step,
        step >= 1,
        transform(combine, xs, ys, total),
    ensures
        r.dft(xs, ys, step),
    decreases bits,
{
    vstd::arithmetic::power2::lemma_pow2_pos(bits);
    if bits == 0 {
        vstd::arithmetic::power2::lemma2_to64();
        assert(0 * 0 * step == 0) by (nonlinear_arith);
        assert(r.sum(xs, 0, step, 1) == xs[0]) by {
            reveal(Turns::lawful);
            assert((r.turn)(0 * 0 * step, xs[0]) == xs[0]);
        }
    } else {
        vstd::arithmetic::power2::lemma_pow2_unfold(bits);
        let n = xs.len() as int;
        let h = n / 2;
        let (even, odd) = choose|even: Seq<C>, odd: Seq<C>|
            #[trigger] merged(combine, even, odd, ys, total) && transform(
                combine,
                evens(xs),
                even,
                total,
            ) && transform(combine, odds(xs), odd, total);
        assert(total == h * (2 * step)) by (nonlinear_arith)
            requires
                total == n * step,
                n == 2 * h,
        ;
        transform_is_the_dft(combine, r, evens(xs), even, (bits - 1) as nat, 2 * step, total);
        transform_is_the_dft(combine, r, odds(xs), odd, (bits - 1) as nat, 2 * step, total);
        assert forall|k: int| 0 <= k < ys.len() implies #[trigger] ys[k] == r.sum(
            xs,
            k,
            step,
            n,
        ) by {
            let low = k % h;
            assert(total as int / n == step) by {
                vstd::arithmetic::div_mod::lemma_div_multiples_vanish(step, n);
            }
            assert(0 <= k * step < total) by (nonlinear_arith)
                requires
                    0 <= k < n,
                    total == n * step,
                    step >= 1,
            ;
            let place = (k * (total as int / ys.len() as int)) as usize;
            assert(place == k * step);
            assert(call_ensures(combine, (even[low], place, odd[low]), ys[k]));
            if k < h {
                vstd::arithmetic::div_mod::lemma_small_mod(k as nat, h as nat);
            } else {
                vstd::arithmetic::div_mod::lemma_mod_add_multiples_vanish(k - h, h);
                vstd::arithmetic::div_mod::lemma_small_mod((k - h) as nat, h as nat);
                r.sum_repeats(evens(xs), low, h, 2 * step, total as int, h);
                r.sum_repeats(odds(xs), low, h, 2 * step, total as int, h);
            }
            r.sum_splits(xs, k, step, total as int, h);
        }
    }
}

} // verus!
