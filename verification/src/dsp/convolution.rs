//! The convolution of a window with the taps of a filter, in four lanes that can
//! run side by side.
//!
//! The arithmetic is handed in by the caller: `step` adds a product to a sum, and
//! `sum` adds two sums.

use vstd::prelude::*;

verus! {

/// `acc` is what adding a product to `before` may give.
pub open spec fn stepped<S, F: Fn(S, S, S) -> S>(step: F, before: S, a: S, b: S, acc: S) -> bool {
    call_ensures(step, (before, a, b), acc)
}

/// `acc` is what a lane may have added up: `count` products from index `first`
/// on, every `stride`th. Sample `i` meets the tap that lies as far from the end
/// as it lies from the start.
pub open spec fn lane<S, F: Fn(S, S, S) -> S>(
    step: F,
    zero: S,
    x: Seq<S>,
    y: Seq<S>,
    first: int,
    stride: int,
    count: nat,
    acc: S,
) -> bool
    decreases count,
{
    if count == 0 {
        acc == zero
    } else {
        let at = first + stride * (count - 1);
        exists|before: S|
            lane(step, zero, x, y, first, stride, (count - 1) as nat, before)
                && #[trigger] stepped(step, before, x[at], y[x.len() - 1 - at], acc)
    }
}

/// One product more.
proof fn lemma_lane_more<S, F: Fn(S, S, S) -> S>(
    step: F,
    zero: S,
    x: Seq<S>,
    y: Seq<S>,
    first: int,
    stride: int,
    count: nat,
    at: int,
    before: S,
    acc: S,
)
    requires
        lane(step, zero, x, y, first, stride, count, before),
        at == first + stride * count,
        call_ensures(step, (before, x[at], y[x.len() - 1 - at]), acc),
    ensures
        lane(step, zero, x, y, first, stride, count + 1, acc),
{
    assert(stepped(step, before, x[at], y[x.len() - 1 - at], acc));
    assert(first + stride * ((count + 1) - 1) == at);
    assert(((count + 1) - 1) as nat == count);
}

/// The four lanes, and what is left over, have these sums, and `r` is the sum of
/// those, by way of `s`.
pub open spec fn lanes_summed<S, F: Fn(S, S, S) -> S, G: Fn(S, S) -> S>(
    step: F,
    sum: G,
    zero: S,
    x: Seq<S>,
    y: Seq<S>,
    a: Seq<S>,
    s: Seq<S>,
    r: S,
) -> bool {
    let chunks = x.len() / 4;
    &&& forall|j: int| 0 <= j < 4 ==> lane(step, zero, x, y, j, 4, chunks, #[trigger] a[j])
    &&& lane(step, zero, x, y, (4 * chunks) as int, 1, (x.len() - 4 * chunks) as nat, a[4])
    &&& call_ensures(sum, (a[0], a[1]), s[0])
    &&& call_ensures(sum, (s[0], a[2]), s[1])
    &&& call_ensures(sum, (s[1], a[3]), s[2])
    &&& call_ensures(sum, (s[2], a[4]), r)
}

/// `r` is a convolution of `x` with `y`.
pub open spec fn convolved<S, F: Fn(S, S, S) -> S, G: Fn(S, S) -> S>(
    step: F,
    sum: G,
    zero: S,
    x: Seq<S>,
    y: Seq<S>,
    r: S,
) -> bool {
    exists|a: Seq<S>, s: Seq<S>| #[trigger] lanes_summed(step, sum, zero, x, y, a, s, r)
}

/// Convolve a window with as many taps.
pub fn convolve<S: Copy, F: Fn(S, S, S) -> S, G: Fn(S, S) -> S>(
    x: &[S],
    y: &[S],
    zero: S,
    step: &F,
    sum: &G,
) -> (r: S)
    requires
        x@.len() == y@.len(),
        forall|acc: S, a: S, b: S| #[trigger] call_requires(*step, (acc, a, b)),
        forall|a: S, b: S| #[trigger] call_requires(*sum, (a, b)),
    ensures
        convolved(*step, *sum, zero, x@, y@, r),
{
    let n: usize = x.len();
    let chunks: usize = n / 4;
    let mut acc_0 = zero;
    let mut acc_1 = zero;
    let mut acc_2 = zero;
    let mut acc_3 = zero;
    let mut i: usize = 0;
    while i < chunks
        invariant
            i <= chunks,
            chunks == n / 4,
            n == x@.len(),
            n == y@.len(),
            forall|acc: S, a: S, b: S| #[trigger] call_requires(*step, (acc, a, b)),
            lane(*step, zero, x@, y@, 0, 4, i as nat, acc_0),
            lane(*step, zero, x@, y@, 1, 4, i as nat, acc_1),
            lane(*step, zero, x@, y@, 2, 4, i as nat, acc_2),
            lane(*step, zero, x@, y@, 3, 4, i as nat, acc_3),
        decreases chunks - i,
    {
        let base: usize = 4 * i;
        let next_0 = step(acc_0, x[base], y[n - base - 1]);
        let next_1 = step(acc_1, x[base + 1], y[n - base - 2]);
        let next_2 = step(acc_2, x[base + 2], y[n - base - 3]);
        let next_3 = step(acc_3, x[base + 3], y[n - base - 4]);
        proof {
            let j = base as int;
            let (x, y) = (x@, y@);
            lemma_lane_more(*step, zero, x, y, 0, 4, i as nat, j, acc_0, next_0);
            lemma_lane_more(*step, zero, x, y, 1, 4, i as nat, j + 1, acc_1, next_1);
            lemma_lane_more(*step, zero, x, y, 2, 4, i as nat, j + 2, acc_2, next_2);
            lemma_lane_more(*step, zero, x, y, 3, 4, i as nat, j + 3, acc_3, next_3);
        }
        acc_0 = next_0;
        acc_1 = next_1;
        acc_2 = next_2;
        acc_3 = next_3;
        i += 1;
    }
    let start: usize = 4 * chunks;
    let mut tail = zero;
    let mut k: usize = start;
    while k < n
        invariant
            start <= k <= n,
            n == x@.len(),
            n == y@.len(),
            forall|acc: S, a: S, b: S| #[trigger] call_requires(*step, (acc, a, b)),
            lane(*step, zero, x@, y@, start as int, 1, (k - start) as nat, tail),
        decreases n - k,
    {
        let next = step(tail, x[k], y[n - k - 1]);
        proof {
            let done = (k - start) as nat;
            lemma_lane_more(*step, zero, x@, y@, start as int, 1, done, k as int, tail, next);
        }
        tail = next;
        k += 1;
    }
    let s_0 = sum(acc_0, acc_1);
    let s_1 = sum(s_0, acc_2);
    let s_2 = sum(s_1, acc_3);
    let r = sum(s_2, tail);
    proof {
        let a = seq![acc_0, acc_1, acc_2, acc_3, tail];
        let s = seq![s_0, s_1, s_2];
        assert(lanes_summed(*step, *sum, zero, x@, y@, a, s, r));
    }
    r
}

/// An arithmetic: sums, products and nothing.
#[verifier::reject_recursive_types(S)]
pub struct Arithmetic<S> {
    pub plus: spec_fn(S, S) -> S,
    pub times: spec_fn(S, S) -> S,
    pub zero: S,
}

impl<S> Arithmetic<S> {
    /// Sums can be taken in any order, and nothing adds nothing.
    #[verifier::opaque]
    pub open spec fn lawful(self) -> bool {
        &&& forall|a: S, b: S| #[trigger] (self.plus)(a, b) == (self.plus)(b, a)
        &&& forall|a: S, b: S, c: S|
            #[trigger] (self.plus)((self.plus)(a, b), c) == (self.plus)(a, (self.plus)(b, c))
        &&& forall|a: S| #[trigger] (self.plus)(a, self.zero) == a
    }

    /// The product at index `i`.
    pub open spec fn product(self, x: Seq<S>, y: Seq<S>, i: int) -> S {
        (self.times)(x[i], y[x.len() - 1 - i])
    }

    /// The sum of `count` products from index `first` on, every `stride`th.
    pub open spec fn total(
        self,
        x: Seq<S>,
        y: Seq<S>,
        first: int,
        stride: int,
        count: nat,
    ) -> S
        decreases count,
    {
        if count == 0 {
            self.zero
        } else {
            (self.plus)(
                self.total(x, y, first, stride, (count - 1) as nat),
                self.product(x, y, first + stride * (count - 1)),
            )
        }
    }

    proof fn commutes(self, a: S, b: S)
        requires
            self.lawful(),
        ensures
            (self.plus)(a, b) == (self.plus)(b, a),
    {
        reveal(Arithmetic::lawful);
    }

    proof fn associates(self, a: S, b: S, c: S)
        requires
            self.lawful(),
        ensures
            (self.plus)((self.plus)(a, b), c) == (self.plus)(a, (self.plus)(b, c)),
    {
        reveal(Arithmetic::lawful);
    }

    proof fn adds_nothing(self, a: S)
        requires
            self.lawful(),
        ensures
            (self.plus)(a, self.zero) == a,
    {
        reveal(Arithmetic::lawful);
    }

    /// Two sums of two can swap their partners.
    proof fn swaps(self, a: S, p: S, b: S, q: S)
        requires
            self.lawful(),
        ensures
            (self.plus)((self.plus)(a, p), (self.plus)(b, q)) == (self.plus)(
                (self.plus)(a, b),
                (self.plus)(p, q),
            ),
    {
        self.associates(a, p, (self.plus)(b, q));
        self.associates(p, b, q);
        self.commutes(p, b);
        self.associates(b, p, q);
        self.associates(a, b, (self.plus)(p, q));
    }

    /// The four lanes together have added up everything so far.
    proof fn lanes_add_up(self, x: Seq<S>, y: Seq<S>, m: nat)
        requires
            self.lawful(),
            4 * m <= x.len(),
        ensures
            (self.plus)(
                (self.plus)(
                    (self.plus)(self.total(x, y, 0, 4, m), self.total(x, y, 1, 4, m)),
                    self.total(x, y, 2, 4, m),
                ),
                self.total(x, y, 3, 4, m),
            ) == self.total(x, y, 0, 1, 4 * m),
        decreases m,
    {
        if m == 0 {
            self.adds_nothing(self.zero);
        } else {
            let k = (m - 1) as nat;
            self.lanes_add_up(x, y, k);
            let (a, b, c, d) = (
                self.total(x, y, 0, 4, k),
                self.total(x, y, 1, 4, k),
                self.total(x, y, 2, 4, k),
                self.total(x, y, 3, 4, k),
            );
            let (p, q, r, s) = (
                self.product(x, y, (4 * k) as int),
                self.product(x, y, (4 * k + 1) as int),
                self.product(x, y, (4 * k + 2) as int),
                self.product(x, y, (4 * k + 3) as int),
            );
            self.swaps(a, p, b, q);
            let ab = (self.plus)(a, b);
            let pq = (self.plus)(p, q);
            self.swaps(ab, pq, c, r);
            let abc = (self.plus)(ab, c);
            let pqr = (self.plus)(pq, r);
            self.swaps(abc, pqr, d, s);
            let all = (self.plus)(abc, d);
            // One product after the other.
            self.associates(all, pqr, s);
            self.associates(all, pq, r);
            self.associates(all, p, q);
            assert(self.total(x, y, 0, 1, 4 * k) == all);
            assert(self.total(x, y, 0, 1, 4 * k + 1) == (self.plus)(all, p));
            assert(self.total(x, y, 0, 1, 4 * k + 2) == (self.plus)((self.plus)(all, p), q));
            assert(self.total(x, y, 0, 1, 4 * k + 3) == (self.plus)((self.plus)(all, pq), r));
            assert(self.total(x, y, 0, 1, 4 * k + 4) == (self.plus)((self.plus)(all, pqr), s));
        }
    }

    /// What is left over completes the sum.
    proof fn tail_completes(self, x: Seq<S>, y: Seq<S>, start: nat, count: nat)
        requires
            self.lawful(),
        ensures
            (self.plus)(
                self.total(x, y, 0, 1, start),
                self.total(x, y, start as int, 1, count),
            ) == self.total(x, y, 0, 1, start + count),
        decreases count,
    {
        if count == 0 {
            self.adds_nothing(self.total(x, y, 0, 1, start));
        } else {
            let k = (count - 1) as nat;
            self.tail_completes(x, y, start, k);
            self.associates(
                self.total(x, y, 0, 1, start),
                self.total(x, y, start as int, 1, k),
                self.product(x, y, (start + k) as int),
            );
            assert(self.total(x, y, 0, 1, start + count) == (self.plus)(
                self.total(x, y, 0, 1, start + k),
                self.product(x, y, (start + k) as int),
            ));
        }
    }
}

/// `step` adds a product, and `sum` adds.
pub open spec fn computes<S, F: Fn(S, S, S) -> S, G: Fn(S, S) -> S>(
    step: F,
    sum: G,
    r: Arithmetic<S>,
) -> bool {
    &&& forall|acc: S, a: S, b: S, y: S| #[trigger]
        call_ensures(step, (acc, a, b), y) ==> y == (r.plus)(acc, (r.times)(a, b))
    &&& forall|a: S, b: S, y: S| #[trigger] call_ensures(sum, (a, b), y) ==> y == (r.plus)(a, b)
}

/// A lane adds up its products.
proof fn lemma_lane<S, F: Fn(S, S, S) -> S, G: Fn(S, S) -> S>(
    step: F,
    sum: G,
    r: Arithmetic<S>,
    x: Seq<S>,
    y: Seq<S>,
    first: int,
    stride: int,
    count: nat,
    acc: S,
)
    requires
        computes(step, sum, r),
        lane(step, r.zero, x, y, first, stride, count, acc),
    ensures
        acc == r.total(x, y, first, stride, count),
    decreases count,
{
    if count > 0 {
        let at = first + stride * (count - 1);
        let before = choose|before: S|
            lane(step, r.zero, x, y, first, stride, (count - 1) as nat, before)
                && #[trigger] stepped(step, before, x[at], y[x.len() - 1 - at], acc);
        lemma_lane(step, sum, r, x, y, first, stride, (count - 1) as nat, before);
    }
}

/// However it is dealt out to the lanes, the convolution is the sum of every
/// sample times the tap that lies as far from the end as it lies from the start,
/// in any arithmetic in which sums can be taken in any order.
pub proof fn lanes_make_one_sum<S, F: Fn(S, S, S) -> S, G: Fn(S, S) -> S>(
    step: F,
    sum: G,
    r: Arithmetic<S>,
    x: Seq<S>,
    y: Seq<S>,
    result: S,
)
    requires
        r.lawful(),
        computes(step, sum, r),
        convolved(step, sum, r.zero, x, y, result),
    ensures
        result == r.total(x, y, 0, 1, x.len()),
{
    let (a, s) = choose|a: Seq<S>, s: Seq<S>| #[trigger]
        lanes_summed(step, sum, r.zero, x, y, a, s, result);
    let chunks = x.len() / 4;
    assert(lane(step, r.zero, x, y, 0, 4, chunks, a[0]));
    assert(lane(step, r.zero, x, y, 1, 4, chunks, a[1]));
    assert(lane(step, r.zero, x, y, 2, 4, chunks, a[2]));
    assert(lane(step, r.zero, x, y, 3, 4, chunks, a[3]));
    lemma_lane(step, sum, r, x, y, 0, 4, chunks, a[0]);
    lemma_lane(step, sum, r, x, y, 1, 4, chunks, a[1]);
    lemma_lane(step, sum, r, x, y, 2, 4, chunks, a[2]);
    lemma_lane(step, sum, r, x, y, 3, 4, chunks, a[3]);
    lemma_lane(step, sum, r, x, y, (4 * chunks) as int, 1, (x.len() - 4 * chunks) as nat, a[4]);
    r.lanes_add_up(x, y, chunks);
    r.tail_completes(x, y, 4 * chunks, (x.len() - 4 * chunks) as nat);
}

} // verus!
