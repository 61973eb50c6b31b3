//! The taps of a windowed filter: an ideal response, shaped by a window, with a
//! gain of one at 0 Hz.
//!
//! The arithmetic is handed in by the caller.

use vstd::prelude::*;

use crate::dsp::{FilterType, Window};

verus! {

/// What a tap is made of.
pub struct Design<I, W, O, M, A, D> {
    /// The ideal low-pass response at tap `k`.
    pub ideal: I,
    /// The window at tap `k`.
    pub shape: W,
    /// What is left of one.
    pub complement: O,
    pub times: M,
    pub plus: A,
    pub over: D,
}

/// `sum` is what adding up the values from the left may give.
pub open spec fn added<S, A: Fn(S, S) -> S>(plus: A, zero: S, xs: Seq<S>, sums: Seq<S>) -> bool {
    &&& sums.len() == xs.len() + 1
    &&& sums[0] == zero
    &&& forall|k: int|
        0 <= k < xs.len() ==> call_ensures(plus, (sums[k], xs[k]), #[trigger] sums[k + 1])
}

/// `response` is the ideal response of the filter at tap `k` of `n`. A high-pass
/// is a low-pass with the complement in the middle.
pub open spec fn responds<S, I: Fn(usize) -> S, O: Fn(S) -> S>(
    filter_type: FilterType,
    ideal: I,
    complement: O,
    n: int,
    k: int,
    response: S,
) -> bool {
    if filter_type == FilterType::Highpass && k == (n - 1) / 2 {
        exists|low: S|
            #[trigger] call_ensures(ideal, (k as usize,), low) && call_ensures(
                complement,
                (low,),
                response,
            )
    } else {
        call_ensures(ideal, (k as usize,), response)
    }
}

impl<I, W, O, M, A, D> Design<I, W, O, M, A, D> {
    /// The taps are made in these steps: a response and a window value for each,
    /// their product, the sums of the products, and each product over the last.
    pub open spec fn made<S>(
        self,
        filter_type: FilterType,
        window: Window,
        zero: S,
        responses: Seq<S>,
        shapes: Seq<S>,
        products: Seq<S>,
        sums: Seq<S>,
        taps: Seq<S>,
    ) -> bool where
        I: Fn(usize) -> S,
        W: Fn(Window, usize) -> S,
        O: Fn(S) -> S,
        M: Fn(S, S) -> S,
        A: Fn(S, S) -> S,
        D: Fn(S, S) -> S,
     {
        let n = taps.len() as int;
        &&& responses.len() == n
        &&& shapes.len() == n
        &&& products.len() == n
        &&& forall|k: int|
            0 <= k < n ==> responds(
                filter_type,
                self.ideal,
                self.complement,
                n,
                k,
                #[trigger] responses[k],
            )
        &&& forall|k: int|
            0 <= k < n ==> call_ensures(self.shape, (window, k as usize), #[trigger] shapes[k])
        &&& forall|k: int|
            0 <= k < n ==> call_ensures(
                self.times,
                (responses[k], shapes[k]),
                #[trigger] products[k],
            )
        &&& added(self.plus, zero, products, sums)
        &&& forall|k: int|
            0 <= k < n ==> call_ensures(self.over, (products[k], sums[n]), #[trigger] taps[k])
    }

    /// Every step can be taken.
    pub open spec fn usable<S>(self) -> bool where
        I: Fn(usize) -> S,
        W: Fn(Window, usize) -> S,
        O: Fn(S) -> S,
        M: Fn(S, S) -> S,
        A: Fn(S, S) -> S,
        D: Fn(S, S) -> S,
     {
        &&& forall|k: usize| #[trigger] call_requires(self.ideal, (k,))
        &&& forall|w: Window, k: usize| #[trigger] call_requires(self.shape, (w, k))
        &&& forall|a: S| #[trigger] call_requires(self.complement, (a,))
        &&& forall|a: S, b: S| #[trigger] call_requires(self.times, (a, b))
        &&& forall|a: S, b: S| #[trigger] call_requires(self.plus, (a, b))
        &&& forall|a: S, b: S| #[trigger] call_requires(self.over, (a, b))
    }
}

/// The taps of a filter.
pub fn create_taps<
    S: Copy,
    I: Fn(usize) -> S,
    W: Fn(Window, usize) -> S,
    O: Fn(S) -> S,
    M: Fn(S, S) -> S,
    A: Fn(S, S) -> S,
    D: Fn(S, S) -> S,
    const N: usize,
>(
    filter_type: FilterType,
    window: Window,
    design: &Design<I, W, O, M, A, D>,
    zero: S,
) -> (taps: [S; N])
    requires
        N >= 1,
        design.usable(),
    ensures
        exists|responses: Seq<S>, shapes: Seq<S>, products: Seq<S>, sums: Seq<S>| #[trigger]
            design.made(
                filter_type,
                window,
                zero,
                responses,
                shapes,
                products,
                sums,
                taps@,
            ),
{
    let middle: usize = (N - 1) / 2;
    let mut taps: [S; N] = [zero; N];
    let mut gain = zero;
    let ghost mut responses: Seq<S> = Seq::empty();
    let ghost mut shapes: Seq<S> = Seq::empty();
    let ghost mut products: Seq<S> = Seq::empty();
    let ghost mut sums: Seq<S> = seq![zero];
    let mut k: usize = 0;
    while k < N
        invariant
            k <= N,
            N >= 1,
            middle == (N - 1) / 2,
            design.usable(),
            responses.len() == k,
            shapes.len() == k,
            products.len() == k,
            gain == sums[k as int],
            added(design.plus, zero, products, sums),
            forall|j: int|
                0 <= j < k ==> responds(
                    filter_type,
                    design.ideal,
                    design.complement,
                    N as int,
                    j,
                    #[trigger] responses[j],
                ),
            forall|j: int|
                0 <= j < k ==> call_ensures(
                    design.shape,
                    (window, j as usize),
                    #[trigger] shapes[j],
                ),
            forall|j: int|
                0 <= j < k ==> call_ensures(
                    design.times,
                    (responses[j], shapes[j]),
                    #[trigger] products[j],
                ),
            forall|j: int| 0 <= j < k ==> taps@[j] == #[trigger] products[j],
        decreases N - k,
    {
        let low = (design.ideal)(k);
        let response = if filter_type == FilterType::Highpass && k == middle {
            (design.complement)(low)
        } else {
            low
        };
        let shape = (design.shape)(window, k);
        let product = (design.times)(response, shape);
        let sum = (design.plus)(gain, product);
        taps[k] = product;
        gain = sum;
        proof {
            let more = sums.push(sum);
            let all = products.push(product);
            assert forall|j: int| 0 <= j < all.len() implies call_ensures(
                design.plus,
                (more[j], all[j]),
                #[trigger] more[j + 1],
            ) by {
                if j < k {
                    assert(more[j] == sums[j] && more[j + 1] == sums[j + 1]);
                }
            }
            assert((k as int) as usize == k);
            assert(call_ensures(design.ideal, (k,), low));
            assert(responds(
                filter_type,
                design.ideal,
                design.complement,
                N as int,
                k as int,
                response,
            ));
            responses = responses.push(response);
            shapes = shapes.push(shape);
            products = all;
            sums = more;
        }
        k += 1;
    }
    let mut j: usize = 0;
    while j < N
        invariant
            j <= N,
            design.usable(),
            products.len() == N,
            gain == sums[N as int],
            forall|i: int| j <= i < N ==> taps@[i] == #[trigger] products[i],
            forall|i: int|
                0 <= i < j ==> call_ensures(
                    design.over,
                    (products[i], sums[N as int]),
                    #[trigger] taps@[i],
                ),
        decreases N - j,
    {
        assert(taps@[j as int] == products[j as int]);
        let tap = (design.over)(taps[j], gain);
        taps[j] = tap;
        j += 1;
    }
    assert(design.made(
        filter_type,
        window,
        zero,
        responses,
        shapes,
        products,
        sums,
        taps@,
    ));
    taps
}

/// Dividing by a gain: sums are divided by dividing what is summed, and nothing
/// stays nothing.
pub open spec fn divides<S>(
    plus: spec_fn(S, S) -> S,
    over: spec_fn(S, S) -> S,
    zero: S,
    gain: S,
) -> bool {
    &&& over(zero, gain) == zero
    &&& forall|a: S, b: S| #[trigger] over(plus(a, b), gain) == plus(over(a, gain), over(b, gain))
}

/// The sum of some values from the left.
pub open spec fn sum_of<S>(plus: spec_fn(S, S) -> S, zero: S, xs: Seq<S>) -> S
    decreases xs.len(),
{
    if xs.len() == 0 {
        zero
    } else {
        plus(sum_of(plus, zero, xs.drop_last()), xs.last())
    }
}

/// The sums are those of the values so far.
proof fn lemma_sums<S, A: Fn(S, S) -> S>(
    plus: A,
    f: spec_fn(S, S) -> S,
    zero: S,
    xs: Seq<S>,
    sums: Seq<S>,
    k: int,
)
    requires
        added(plus, zero, xs, sums),
        forall|a: S, b: S, y: S| #[trigger] call_ensures(plus, (a, b), y) ==> y == f(a, b),
        0 <= k <= xs.len(),
    ensures
        sums[k] == sum_of(f, zero, xs.take(k)),
    decreases k,
{
    if k > 0 {
        lemma_sums(plus, f, zero, xs, sums, k - 1);
        assert(xs.take(k).drop_last() =~= xs.take(k - 1));
        assert(xs.take(k).last() == xs[k - 1]);
        assert(call_ensures(plus, (sums[k - 1], xs[k - 1]), sums[(k - 1) + 1]));
    }
}

/// Dividing every value divides the sum.
proof fn lemma_divided<S>(
    plus: spec_fn(S, S) -> S,
    over: spec_fn(S, S) -> S,
    zero: S,
    gain: S,
    xs: Seq<S>,
    ys: Seq<S>,
)
    requires
        divides(plus, over, zero, gain),
        ys.len() == xs.len(),
        forall|k: int| 0 <= k < xs.len() ==> #[trigger] ys[k] == over(xs[k], gain),
    ensures
        sum_of(plus, zero, ys) == over(sum_of(plus, zero, xs), gain),
    decreases xs.len(),
{
    if xs.len() > 0 {
        lemma_divided(plus, over, zero, gain, xs.drop_last(), ys.drop_last());
    }
}

/// The gain at 0 Hz is one: the taps add up to a value over itself, in any
/// arithmetic in which a sum is divided by dividing what is summed.
pub proof fn taps_have_unit_gain<
    S,
    I: Fn(usize) -> S,
    W: Fn(Window, usize) -> S,
    O: Fn(S) -> S,
    M: Fn(S, S) -> S,
    A: Fn(S, S) -> S,
    D: Fn(S, S) -> S,
>(
    design: Design<I, W, O, M, A, D>,
    plus: spec_fn(S, S) -> S,
    over: spec_fn(S, S) -> S,
    filter_type: FilterType,
    window: Window,
    zero: S,
    responses: Seq<S>,
    shapes: Seq<S>,
    products: Seq<S>,
    sums: Seq<S>,
    taps: Seq<S>,
)
    requires
        design.made(filter_type, window, zero, responses, shapes, products, sums, taps),
        forall|a: S, b: S, y: S| #[trigger]
            call_ensures(design.plus, (a, b), y) ==> y == plus(a, b),
        forall|a: S, b: S, y: S| #[trigger]
            call_ensures(design.over, (a, b), y) ==> y == over(a, b),
        divides(plus, over, zero, sums.last()),
    ensures
        sum_of(plus, zero, taps) == over(sums.last(), sums.last()),
{
    let n = taps.len() as int;
    let gain = sums[n];
    lemma_sums(design.plus, plus, zero, products, sums, n);
    assert(products.take(n) =~= products);
    assert forall|k: int| 0 <= k < products.len() implies #[trigger] taps[k] == over(
        products[k],
        gain,
    ) by {
        assert(call_ensures(design.over, (products[k], sums[n]), taps[k]));
    }
    lemma_divided(plus, over, zero, gain, products, taps);
}

/// The filter has a linear phase: where the response and the window are
/// symmetric about the middle, so are the taps. A high-pass filter takes its
/// middle tap apart, so it needs an odd number of taps to have one.
pub proof fn taps_are_symmetric<
    S,
    I: Fn(usize) -> S,
    W: Fn(Window, usize) -> S,
    O: Fn(S) -> S,
    M: Fn(S, S) -> S,
    A: Fn(S, S) -> S,
    D: Fn(S, S) -> S,
>(
    design: Design<I, W, O, M, A, D>,
    ideal: spec_fn(int) -> S,
    shape: spec_fn(int) -> S,
    times: spec_fn(S, S) -> S,
    over: spec_fn(S, S) -> S,
    filter_type: FilterType,
    window: Window,
    zero: S,
    responses: Seq<S>,
    shapes: Seq<S>,
    products: Seq<S>,
    sums: Seq<S>,
    taps: Seq<S>,
    k: int,
)
    requires
        design.made(filter_type, window, zero, responses, shapes, products, sums, taps),
        taps.len() <= usize::MAX,
        filter_type is Highpass ==> taps.len() % 2 == 1,
        0 <= k < taps.len(),
        forall|j: usize, y: S| #[trigger]
            call_ensures(design.ideal, (j,), y) ==> y == ideal(j as int),
        forall|j: usize, y: S| #[trigger]
            call_ensures(design.shape, (window, j), y) ==> y == shape(j as int),
        forall|a: S, b: S, y: S| #[trigger]
            call_ensures(design.times, (a, b), y) ==> y == times(a, b),
        forall|a: S, b: S, y: S| #[trigger]
            call_ensures(design.over, (a, b), y) ==> y == over(a, b),
        ideal(k) == ideal(taps.len() - 1 - k),
        shape(k) == shape(taps.len() - 1 - k),
    ensures
        taps[k] == taps[taps.len() - 1 - k],
{
    let n = taps.len() as int;
    let m = n - 1 - k;
    let middle = (n - 1) / 2;
    assert((k as usize) as int == k && (m as usize) as int == m);
    if k != m {
        assert(filter_type is Highpass ==> k != middle && m != middle);
        assert(responds(filter_type, design.ideal, design.complement, n, k, responses[k]));
        assert(responds(filter_type, design.ideal, design.complement, n, m, responses[m]));
        assert(responses[k] == responses[m]);
        assert(call_ensures(design.shape, (window, k as usize), shapes[k]));
        assert(call_ensures(design.shape, (window, m as usize), shapes[m]));
        assert(call_ensures(design.times, (responses[k], shapes[k]), products[k]));
        assert(call_ensures(design.times, (responses[m], shapes[m]), products[m]));
        assert(call_ensures(design.over, (products[k], sums[n]), taps[k]));
        assert(call_ensures(design.over, (products[m], sums[n]), taps[m]));
    }
}

} // verus!
