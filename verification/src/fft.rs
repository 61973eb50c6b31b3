//! The radix-2 Fourier transform: gathering a window, the bit-reversed order,
//! and the butterfly network.
//!
//! The arithmetic on complex values is handed in by the caller, so the network
//! is generic over the value type.

pub mod calls;
pub mod dft;
pub mod laws;

use vstd::arithmetic::power2::pow2;
use vstd::prelude::*;

use crate::utils::is_power_of_two;

verus! {

/// `x` with its lowest `bits` bits in reverse order.
pub open spec fn reversed(bits: nat, x: nat) -> nat
    decreases bits,
{
    if bits == 0 {
        0
    } else {
        (x % 2) * pow2((bits - 1) as nat) + reversed((bits - 1) as nat, x / 2)
    }
}

/// The reverse of `bits` bits is a number of `bits` bits.
pub proof fn lemma_reversed_bound(bits: nat, x: nat)
    ensures
        reversed(bits, x) < pow2(bits),
    decreases bits,
{
    vstd::arithmetic::power2::lemma_pow2_pos(bits);
    if bits > 0 {
        lemma_reversed_bound((bits - 1) as nat, x / 2);
        vstd::arithmetic::power2::lemma_pow2_unfold(bits);
        let p = pow2((bits - 1) as nat);
        assert((x % 2) * p <= p) by (nonlinear_arith)
            requires
                x % 2 <= 1,
        ;
    }
}

/// Appending a bit below puts it on top of the reverse.
pub proof fn lemma_reversed_push(bits: nat, j: nat, bit: nat)
    requires
        bit <= 1,
    ensures
        reversed(bits + 1, 2 * j + bit) == bit * pow2(bits) + reversed(bits, j),
{
    let x = 2 * j + bit;
    assert(x % 2 == bit && x / 2 == j);
}

/// Reversing a bit order twice gives the number back.
pub proof fn reversing_twice(bits: nat, x: nat)
    requires
        x < pow2(bits),
    ensures
        reversed(bits, reversed(bits, x)) == x,
    decreases bits,
{
    if bits == 0 {
        vstd::arithmetic::power2::lemma2_to64();
    } else {
        let b = (bits - 1) as nat;
        vstd::arithmetic::power2::lemma_pow2_unfold(bits);
        reversing_twice(b, x / 2);
        lemma_reversed_bound(b, x / 2);
        let low = reversed(b, x / 2);
        let top = x % 2;
        lemma_reversed_split(b, low, top);
        assert((x % 2) * pow2(b) == top * pow2(b));
        assert(reversed(bits, x) == top * pow2(b) + low);
    }
}

/// The reverse of a number with a bit on top: that bit comes out lowest.
proof fn lemma_reversed_split(b: nat, low: nat, top: nat)
    requires
        low < pow2(b),
        top <= 1,
    ensures
        reversed(b + 1, top * pow2(b) + low) == 2 * reversed(b, low) + top,
    decreases b,
{
    if b == 0 {
        vstd::arithmetic::power2::lemma2_to64();
        assert(low == 0);
        assert(top * pow2(0) == top) by (nonlinear_arith)
            requires
                pow2(0) == 1,
        ;
        assert(reversed(1, top) == (top % 2) * pow2(0) + reversed(0, top / 2));
        assert((top % 2) * pow2(0) == top) by (nonlinear_arith)
            requires
                pow2(0) == 1,
                top <= 1,
        ;
        assert(reversed(0, low) == 0);
        assert(reversed(0, top / 2) == 0);
    } else {
        let c = (b - 1) as nat;
        vstd::arithmetic::power2::lemma_pow2_unfold(b);
        let p = pow2(c);
        let x = top * pow2(b) + low;
        assert(x == 2 * (top * p) + low) by (nonlinear_arith)
            requires
                x == top * pow2(b) + low,
                pow2(b) == 2 * p,
        ;
        assert(x % 2 == low % 2 && x / 2 == top * p + low / 2);
        lemma_reversed_split(c, low / 2, top);
        assert(reversed(b + 1, x) == (low % 2) * pow2(b) + reversed(b, x / 2));
        assert(reversed(b, low) == (low % 2) * p + reversed(c, low / 2));
        assert((low % 2) * pow2(b) == 2 * ((low % 2) * p)) by (nonlinear_arith)
            requires
                pow2(b) == 2 * p,
        ;
    }
}

/// Reverse the lowest `bits` bits of `x`.
pub fn bit_reversed(x: usize, bits: u32) -> (r: usize)
    requires
        bits < usize::BITS,
    ensures
        r == reversed(bits as nat, x as nat),
{
    let mut left: u32 = bits;
    let mut rest: usize = x;
    let mut r: usize = 0;
    proof {
        lemma_usize_pow2(bits as nat);
        vstd::arithmetic::power2::lemma2_to64();
    }
    while left > 0
        invariant
            left <= bits < usize::BITS,
            r < pow2((bits - left) as nat),
            r * pow2(left as nat) + reversed(left as nat, rest as nat) == reversed(
                bits as nat,
                x as nat,
            ),
            pow2(bits as nat) <= usize::MAX,
        decreases left,
    {
        proof {
            let l = left as nat;
            vstd::arithmetic::power2::lemma_pow2_unfold(l);
            vstd::arithmetic::power2::lemma_pow2_unfold((bits - left + 1) as nat);
            if left < bits {
                vstd::arithmetic::power2::lemma_pow2_strictly_increases(
                    (bits - left) as nat,
                    bits as nat,
                );
            }
            if bits - left + 1 < bits {
                vstd::arithmetic::power2::lemma_pow2_strictly_increases(
                    (bits - left + 1) as nat,
                    bits as nat,
                );
            }
            let p = pow2((l - 1) as nat);
            assert((2 * r + rest % 2) * p == r * (2 * p) + (rest as nat % 2) * p)
                by (nonlinear_arith);
        }
        r = 2 * r + rest % 2;
        rest = rest / 2;
        left -= 1;
    }
    proof {
        assert(r * pow2(0) == r) by (nonlinear_arith)
            requires
                pow2(0) == 1,
        ;
    }
    r
}

/// A power of two below the word size fits in a word.
proof fn lemma_usize_pow2(bits: nat)
    requires
        bits < usize::BITS,
    ensures
        pow2(bits) <= usize::MAX,
{
    vstd::bits::lemma_usize_pow2_no_overflow(bits);
}

/// The values with an even index.
pub open spec fn evens<C>(xs: Seq<C>) -> Seq<C> {
    Seq::new((xs.len() / 2) as nat, |k: int| xs[2 * k])
}

/// The values with an odd index.
pub open spec fn odds<C>(xs: Seq<C>) -> Seq<C> {
    Seq::new((xs.len() / 2) as nat, |k: int| xs[2 * k + 1])
}

/// `ys` is what combining the transforms of the even and of the odd half may
/// give: each output is an even one plus a rotated odd one. The rotation is
/// named by its place in a table of `total` roots of unity.
pub open spec fn merged<C, F: Fn(C, usize, C) -> C>(
    combine: F,
    even: Seq<C>,
    odd: Seq<C>,
    ys: Seq<C>,
    total: nat,
) -> bool {
    &&& ys.len() > 0
    &&& even.len() == ys.len() / 2
    &&& odd.len() == ys.len() / 2
    &&& forall|i: int|
        0 <= i < ys.len() ==> call_ensures(
            combine,
            (
                even[i % even.len() as int],
                (i * (total as int / ys.len() as int)) as usize,
                odd[i % odd.len() as int],
            ),
            #[trigger] ys[i],
        )
}

/// `ys` is a Fourier transform of `xs` as Cooley and Tukey define it: the
/// transforms of the even and of the odd half, combined. A single value is its
/// own transform.
pub open spec fn transform<C, F: Fn(C, usize, C) -> C>(
    combine: F,
    xs: Seq<C>,
    ys: Seq<C>,
    total: nat,
) -> bool
    decreases xs.len(),
{
    if xs.len() <= 1 {
        ys == xs
    } else {
        &&& ys.len() == xs.len()
        &&& exists|even: Seq<C>, odd: Seq<C>|
            #[trigger] merged(combine, even, odd, ys, total) && transform(
                combine,
                evens(xs),
                even,
                total,
            ) && transform(combine, odds(xs), odd, total)
    }
}

/// Every `stride`th value from `from` on, `len` of them.
pub open spec fn strided<C>(xs: Seq<C>, from: int, stride: int, len: int) -> Seq<C> {
    Seq::new(len as nat, |k: int| xs[from + k * stride])
}

/// Halving a strided selection doubles its stride.
proof fn lemma_strided_halves<C>(xs: Seq<C>, from: int, stride: int, half: int)
    requires
        half >= 1,
        stride >= 1,
    ensures
        evens(strided(xs, from, stride, 2 * half)) == strided(xs, from, 2 * stride, half),
        odds(strided(xs, from, stride, 2 * half)) == strided(xs, from + stride, 2 * stride, half),
{
    let all = strided(xs, from, stride, 2 * half);
    assert forall|k: int| 0 <= k < half implies evens(all)[k] == strided(
        xs,
        from,
        2 * stride,
        half,
    )[k] by {
        assert((2 * k) * stride == k * (2 * stride)) by (nonlinear_arith);
    }
    assert(evens(all) =~= strided(xs, from, 2 * stride, half));
    assert forall|k: int| 0 <= k < half implies odds(all)[k] == strided(
        xs,
        from + stride,
        2 * stride,
        half,
    )[k] by {
        assert((2 * k + 1) * stride == stride + k * (2 * stride)) by (nonlinear_arith);
    }
    assert(odds(all) =~= strided(xs, from + stride, 2 * stride, half));
}

/// Part way through the network: every block of `len` values is a transform of
/// every `stride`th input, the blocks in bit-reversed order.
pub open spec fn staged<C, F: Fn(C, usize, C) -> C>(
    combine: F,
    xs: Seq<C>,
    work: Seq<C>,
    bits: nat,
    len: int,
) -> bool {
    &&& work.len() == xs.len()
    &&& xs.len() == pow2(bits) * len
    &&& forall|j: nat|
        j < pow2(bits) ==> #[trigger] transform(
            combine,
            strided(xs, reversed(bits, j) as int, pow2(bits) as int, len),
            work.subrange(j * len, j * len + len),
            xs.len(),
        )
}

/// Two neighbouring blocks make one of twice the length.
proof fn lemma_stage<C, F: Fn(C, usize, C) -> C>(
    combine: F,
    xs: Seq<C>,
    src: Seq<C>,
    dst: Seq<C>,
    bits: nat,
    half: int,
)
    requires
        half >= 1,
        staged(combine, xs, src, bits + 1, half),
        dst.len() == xs.len(),
        forall|j: nat|
            j < pow2(bits) ==> #[trigger] merged(
                combine,
                src.subrange(j * (2 * half), j * (2 * half) + half),
                src.subrange(j * (2 * half) + half, j * (2 * half) + 2 * half),
                dst.subrange(j * (2 * half), j * (2 * half) + 2 * half),
                xs.len(),
            ),
    ensures
        staged(combine, xs, dst, bits, 2 * half),
{
    let stride = pow2(bits) as int;
    vstd::arithmetic::power2::lemma_pow2_pos(bits);
    vstd::arithmetic::power2::lemma_pow2_unfold(bits + 1);
    assert(pow2(bits + 1) == 2 * pow2(bits));
    assert(pow2(bits + 1) * half == pow2(bits) * (2 * half)) by (nonlinear_arith)
        requires
            pow2(bits + 1) == 2 * pow2(bits),
    ;
    assert forall|j: nat| j < pow2(bits) implies #[trigger] transform(
        combine,
        strided(xs, reversed(bits, j) as int, stride, 2 * half),
        dst.subrange(j * (2 * half), j * (2 * half) + 2 * half),
        xs.len(),
    ) by {
        let from = reversed(bits, j) as int;
        let all = strided(xs, from, stride, 2 * half);
        let even = src.subrange(j * (2 * half), j * (2 * half) + half);
        let odd = src.subrange(j * (2 * half) + half, j * (2 * half) + 2 * half);
        let a = 2 * j;
        let b = 2 * j + 1;
        lemma_reversed_push(bits, j, 0);
        lemma_reversed_push(bits, j, 1);
        lemma_strided_halves(xs, from, stride, half);
        assert(a * half == j * (2 * half)) by (nonlinear_arith)
            requires
                a == 2 * j,
        ;
        assert(b * half == j * (2 * half) + half) by (nonlinear_arith)
            requires
                b == 2 * j + 1,
        ;
        assert(transform(
            combine,
            strided(xs, reversed(bits + 1, a) as int, pow2(bits + 1) as int, half),
            src.subrange(a * half, a * half + half),
            xs.len(),
        ));
        assert(transform(
            combine,
            strided(xs, reversed(bits + 1, b) as int, pow2(bits + 1) as int, half),
            src.subrange(b * half, b * half + half),
            xs.len(),
        ));
        assert(j * (2 * half) + 2 * half <= xs.len()) by (nonlinear_arith)
            requires
                j + 1 <= pow2(bits),
                xs.len() == pow2(bits) * (2 * half),
                half >= 1,
        ;
        let ys = dst.subrange(j * (2 * half), j * (2 * half) + 2 * half);
        assert(merged(combine, even, odd, ys, xs.len()));
        assert(ys.len() == all.len());
    }
}

/// One stage of the network: every pair of neighbouring blocks of `half` values
/// becomes one block.
fn stage<C: Copy, F: Fn(C, usize, C) -> C>(
    combine: &F,
    src: &Vec<C>,
    half: usize,
    Ghost(xs): Ghost<Seq<C>>,
    Ghost(bits): Ghost<nat>,
) -> (dst: Vec<C>)
    requires
        half >= 1,
        2 * half <= src.len(),
        src@.len() == xs.len(),
        staged(*combine, xs, src@, bits + 1, half as int),
        forall|a: C, k: usize, b: C| k < src.len() ==> #[trigger] call_requires(*combine, (a, k, b)),
    ensures
        dst@.len() == src@.len(),
        staged(*combine, xs, dst@, bits, 2 * half),
{
    let total: usize = src.len();
    let n: usize = 2 * half;
    let turn: usize = total / n;
    let ghost blocks = pow2(bits) as int;
    proof {
        vstd::arithmetic::power2::lemma_pow2_pos(bits);
        vstd::arithmetic::power2::lemma_pow2_unfold(bits + 1);
        assert(total == blocks * n) by (nonlinear_arith)
            requires
                total == pow2(bits + 1) * half,
                pow2(bits + 1) == 2 * blocks,
                n == 2 * half,
        ;
        vstd::arithmetic::div_mod::lemma_div_multiples_vanish(blocks, n as int);
        assert(n * blocks == blocks * n) by (nonlinear_arith);
        assert(turn == blocks);
    }
    let mut dst: Vec<C> = Vec::with_capacity(total);
    let mut j: usize = 0;
    while j < turn
        invariant
            j <= turn,
            turn == blocks,
            blocks == pow2(bits),
            total == blocks * n,
            n == 2 * half,
            half >= 1,
            src@.len() == total,
            total == xs.len(),
            dst@.len() == j * n,
            forall|a: C, k: usize, b: C|
                k < src.len() ==> #[trigger] call_requires(*combine, (a, k, b)),
            forall|b: nat|
                b < j ==> #[trigger] merged(
                    *combine,
                    src@.subrange(b * n, b * n + half),
                    src@.subrange(b * n + half, b * n + n),
                    dst@.subrange(b * n, b * n + n),
                    total as nat,
                ),
        decreases turn - j,
    {
        proof {
            assert(j * n + n <= total) by (nonlinear_arith)
                requires
                    j + 1 <= blocks,
                    total == blocks * n,
            ;
            assert((j + 1) * n == j * n + n) by (nonlinear_arith);
        }
        let start: usize = j * n;
        let ghost even = src@.subrange(start as int, start + half);
        let ghost odd = src@.subrange(start + half, start + n);
        let ghost before = dst@;
        let mut i: usize = 0;
        while i < n
            invariant
                i <= n,
                n == 2 * half,
                half >= 1,
                start + n <= total,
                total == blocks * n,
                turn == blocks,
                src@.len() == total,
                even == src@.subrange(start as int, start + half),
                odd == src@.subrange(start + half, start + n),
                before.len() == start,
                dst@.len() == start + i,
                dst@.take(start as int) == before,
                forall|a: C, k: usize, b: C|
                    k < src.len() ==> #[trigger] call_requires(*combine, (a, k, b)),
                forall|k: int|
                    0 <= k < i ==> call_ensures(
                        *combine,
                        (even[k % half as int], (k * turn) as usize, odd[k % half as int]),
                        #[trigger] dst@[start + k],
                    ),
            decreases n - i,
        {
            let alias: usize = i % half;
            proof {
                assert(0 <= i * turn < total) by (nonlinear_arith)
                    requires
                        0 <= i < n,
                        total == blocks * n,
                        turn == blocks,
                        total >= 1,
                ;
            }
            let y = combine(src[start + alias], i * turn, src[start + half + alias]);
            assert(src@[start + alias] == even[alias as int]);
            assert(src@[start + half + alias] == odd[alias as int]);
            dst.push(y);
            assert(dst@.take(start as int) =~= before);
            i += 1;
        }
        proof {
            let ys = dst@.subrange(start as int, start + n);
            vstd::arithmetic::div_mod::lemma_div_multiples_vanish(blocks, n as int);
            assert(n * blocks == blocks * n) by (nonlinear_arith);
            assert(total as int / n as int == turn);
            assert forall|k: int| 0 <= k < ys.len() implies call_ensures(
                *combine,
                (
                    even[k % even.len() as int],
                    (k * (total as int / ys.len() as int)) as usize,
                    odd[k % odd.len() as int],
                ),
                #[trigger] ys[k],
            ) by {
                assert(ys[k] == dst@[start + k]);
            }
            assert(merged(*combine, even, odd, ys, total as nat));
            assert forall|b: nat| b < j + 1 implies #[trigger] merged(
                *combine,
                src@.subrange(b * n, b * n + half),
                src@.subrange(b * n + half, b * n + n),
                dst@.subrange(b * n, b * n + n),
                total as nat,
            ) by {
                if b < j {
                    assert(b * n + n <= j * n) by (nonlinear_arith)
                        requires
                            b + 1 <= j,
                            n >= 0,
                    ;
                    assert(b * n >= 0) by (nonlinear_arith);
                    assert(dst@.subrange(b * n, b * n + n) =~= before.subrange(b * n, b * n + n));
                } else {
                    assert(b == j);
                }
            }
        }
        j += 1;
    }
    proof {
        assert forall|b: nat| b < pow2(bits) implies #[trigger] merged(
            *combine,
            src@.subrange(b * (2 * half), b * (2 * half) + half),
            src@.subrange(b * (2 * half) + half, b * (2 * half) + 2 * half),
            dst@.subrange(b * (2 * half), b * (2 * half) + 2 * half),
            xs.len(),
        ) by {
            assert(merged(
                *combine,
                src@.subrange(b * n, b * n + half),
                src@.subrange(b * n + half, b * n + n),
                dst@.subrange(b * n, b * n + n),
                total as nat,
            ));
        }
        lemma_stage(*combine, xs, src@, dst@, bits, half as int);
    }
    dst
}

/// `xs` is what shaping the samples with the window may give.
pub open spec fn windowed<C, W: Fn(C, usize) -> C>(window: W, samples: Seq<C>, xs: Seq<C>) -> bool {
    &&& xs.len() == samples.len()
    &&& forall|k: int|
        0 <= k < samples.len() ==> call_ensures(
            window,
            (samples[k], k as usize),
            #[trigger] xs[k],
        )
}

/// The samples after the pairs of `iq` have been put in from `offset` on.
pub open spec fn filled<S, C, P: Fn(S, S) -> C>(
    pair: P,
    before: Seq<C>,
    offset: int,
    iq: Seq<S>,
    after: Seq<C>,
) -> bool {
    let n = iq.len() / 2;
    &&& after.len() == before.len()
    &&& forall|k: int|
        0 <= k < n ==> call_ensures(
            pair,
            (iq[2 * k], iq[2 * k + 1]),
            #[trigger] after[offset + k],
        )
    &&& forall|j: int|
        0 <= j < before.len() && (j < offset || j >= offset + n) ==> #[trigger] after[j]
            == before[j]
}

/// How many of so many pairs a window of `n` samples still takes.
pub open spec fn fitting(n: int, offset: int, pairs: int) -> int {
    if offset + pairs <= n {
        pairs
    } else {
        n - offset
    }
}

/// A spectrum turned so that the middle of it is 0 Hz: the upper half, which
/// stands for the negative frequencies, comes first.
pub open spec fn centred<C>(bins: Seq<C>) -> Seq<C> {
    let n = bins.len() as int;
    Seq::new(n as nat, |i: int| bins[(i + n / 2) % n])
}

/// A spectrum that a window of samples may give.
pub open spec fn spectrum_of<C, W: Fn(C, usize) -> C, F: Fn(C, usize, C) -> C>(
    window: W,
    combine: F,
    samples: Seq<C>,
    bins: Seq<C>,
) -> bool {
    exists|xs: Seq<C>|
        #[trigger] windowed(window, samples, xs) && transform(combine, xs, bins, samples.len())
}

/// A sliding window of `N` complex samples and its transform. The input comes in
/// pieces which add up to `N`, so `offset` decides when the window is full.
pub struct Fft<C: Copy, const N: usize> {
    samples: [C; N],
    offset: usize,
    indexes_rev: Vec<usize>,
}

impl<C: Copy, const N: usize> Fft<C, N> {
    /// The samples gathered so far; what lies behind the offset is left over.
    pub closed spec fn samples(&self) -> Seq<C> {
        self.samples@
    }

    /// How many samples have been gathered.
    pub closed spec fn offset(&self) -> nat {
        self.offset as nat
    }

    /// The size is a power of two, at least two, the window is not full, and the
    /// table holds the bit-reversed order.
    pub closed spec fn wf(&self) -> bool {
        &&& N >= 2
        &&& self.offset < N
        &&& self.indexes_rev@.len() == N
        &&& exists|bits: nat| #[trigger] order(self.indexes_rev@, bits) && pow2(bits) == N
    }

    /// What is known of the size.
    pub proof fn lemma_size(&self)
        requires
            self.wf(),
        ensures
            N >= 2,
            self.samples().len() == N,
            self.offset() < N,
    {
    }

    /// An empty window.
    pub fn new(zero: C) -> (f: Self)
        requires
            is_power_of_two(N as int),
            N >= 2,
        ensures
            f.wf(),
            f.offset() == 0,
            f.samples() == Seq::new(N as nat, |i: int| zero),
    {
        let bits: u32 = log2(N);
        let mut indexes_rev: Vec<usize> = Vec::new();
        proof {
            if bits >= usize::BITS {
                vstd::bits::lemma_usize_pow2_no_overflow((usize::BITS - 1) as nat);
            }
        }
        while indexes_rev.len() < N
            invariant
                indexes_rev.len() <= N,
                bits < usize::BITS,
                forall|i: int|
                    0 <= i < indexes_rev.len() ==> #[trigger] indexes_rev@[i] == reversed(
                        bits as nat,
                        i as nat,
                    ),
            decreases N - indexes_rev.len(),
        {
            let r: usize = bit_reversed(indexes_rev.len(), bits);
            indexes_rev.push(r);
        }
        let f = Fft { samples: [zero; N], offset: 0, indexes_rev };
        assert(f.samples@ =~= Seq::new(N as nat, |i: int| zero));
        assert(order(f.indexes_rev@, bits as nat));
        f
    }

    /// Gather pairs; when the window is full, hand out its spectrum, 0 Hz in the
    /// middle, and start over. The pieces are meant to make up the window exactly;
    /// pairs beyond it are lost.
    ///
    /// `pair` makes a sample of two values, `window` shapes sample `k`, and
    /// `combine` adds to an even output an odd one turned by the given root of
    /// unity.
    pub fn push<
        S: Copy,
        P: Fn(S, S) -> C,
        W: Fn(C, usize) -> C,
        F: Fn(C, usize, C) -> C,
    >(&mut self, iq: &[S], pair: &P, window: &W, combine: &F) -> (r: Option<Vec<C>>)
        requires
            old(self).wf(),
            forall|a: S, b: S| #[trigger] call_requires(*pair, (a, b)),
            forall|c: C, k: usize| k < N ==> #[trigger] call_requires(*window, (c, k)),
            forall|a: C, k: usize, b: C| k < N ==> #[trigger] call_requires(*combine, (a, k, b)),
        ensures
            final(self).wf(),
            filled(
                *pair,
                old(self).samples(),
                old(self).offset() as int,
                iq@.take(
                    2 * fitting(N as int, old(self).offset() as int, iq@.len() as int / 2),
                ),
                final(self).samples(),
            ),
            r is Some <==> old(self).offset() + iq@.len() / 2 >= N,
            r is None ==> final(self).offset() == old(self).offset() + iq@.len() / 2,
            r matches Some(spectrum) ==> final(self).offset() == 0 && exists|bins: Seq<C>|
                #[trigger] spectrum_of(*window, *combine, final(self).samples(), bins)
                    && spectrum@ == centred(bins),
    {
        let len: usize = iq.len();
        let n: usize = if len / 2 < N - self.offset {
            len / 2
        } else {
            N - self.offset
        };
        let ghost start = self.offset as int;
        let ghost taken = iq@.take(2 * n);
        let mut k: usize = 0;
        while k < n
            invariant
                k <= n,
                n <= len / 2,
                len == iq@.len(),
                0 <= start,
                start + n <= N,
                self.offset == start + k,
                N >= 2,
                self.indexes_rev == old(self).indexes_rev,
                self.indexes_rev@.len() == N,
                forall|a: S, b: S| #[trigger] call_requires(*pair, (a, b)),
                forall|j: int|
                    0 <= j < k ==> call_ensures(
                        *pair,
                        (iq@[2 * j], iq@[2 * j + 1]),
                        #[trigger] self.samples@[start + j],
                    ),
                forall|j: int|
                    0 <= j < N && (j < start || j >= start + k) ==> #[trigger] self.samples@[j]
                        == old(self).samples@[j],
            decreases n - k,
        {
            let ghost before = self.samples@;
            let c = pair(iq[2 * k], iq[2 * k + 1]);
            self.samples[self.offset] = c;
            assert(self.samples@ == before.update(start + k, c));
            self.offset += 1;
            k += 1;
        }
        assert(filled(*pair, old(self).samples@, start, taken, self.samples@)) by {
            assert(taken.len() / 2 == n);
        }
        if self.offset == N {
            self.offset = 0;
            proof {
                let bits = choose|bits: nat|
                    #[trigger] order(old(self).indexes_rev@, bits) && pow2(bits) == N;
                assert(order(self.indexes_rev@, bits));
            }
            let bins = self.dft_fwd(window, combine);
            Some(post_process(&bins))
        } else {
            None
        }
    }

    /// The transform of the window: each sample shaped, put in bit-reversed
    /// order, and combined stage by stage.
    pub fn dft_fwd<W: Fn(C, usize) -> C, F: Fn(C, usize, C) -> C>(
        &self,
        window: &W,
        combine: &F,
    ) -> (bins: Vec<C>)
        requires
            self.wf(),
            forall|c: C, k: usize| k < N ==> #[trigger] call_requires(*window, (c, k)),
            forall|a: C, k: usize, b: C| k < N ==> #[trigger] call_requires(*combine, (a, k, b)),
        ensures
            bins@.len() == N,
            spectrum_of(*window, *combine, self.samples(), bins@),
    {
        let ghost bits = choose|bits: nat|
            #[trigger] order(self.indexes_rev@, bits) && pow2(bits) == N;
        let mut src: Vec<C> = Vec::with_capacity(N);
        while src.len() < N
            invariant
                src.len() <= N,
                order(self.indexes_rev@, bits),
                pow2(bits) == N,
                self.indexes_rev@.len() == N,
                forall|c: C, k: usize| k < N ==> #[trigger] call_requires(*window, (c, k)),
                forall|i: int|
                    0 <= i < src.len() ==> call_ensures(
                        *window,
                        (self.samples@[reversed(bits, i as nat) as int], reversed(
                            bits,
                            i as nat,
                        ) as usize),
                        #[trigger] src@[i],
                    ),
            decreases N - src.len(),
        {
            let i: usize = src.len();
            proof {
                lemma_reversed_bound(bits, i as nat);
            }
            let k: usize = self.indexes_rev[i];
            let x = window(self.samples[k], k);
            src.push(x);
        }
        let ghost xs = Seq::new(N as nat, |k: int| src@[reversed(bits, k as nat) as int]);
        proof {
            assert forall|k: int| 0 <= k < N implies call_ensures(
                *window,
                (self.samples@[k], k as usize),
                #[trigger] xs[k],
            ) by {
                lemma_reversed_bound(bits, k as nat);
                reversing_twice(bits, k as nat);
                let i = reversed(bits, k as nat) as int;
                assert(xs[k] == src@[i]);
            }
            assert(windowed(*window, self.samples@, xs));
            lemma_first_stage(*combine, xs, src@, bits);
        }
        let mut half: usize = 1;
        let ghost mut left = bits;
        while half < N
            invariant
                1 <= half <= N,
                src@.len() == N,
                xs.len() == N,
                staged(*combine, xs, src@, left, half as int),
                forall|a: C, k: usize, b: C|
                    k < N ==> #[trigger] call_requires(*combine, (a, k, b)),
            decreases N - half,
        {
            proof {
                vstd::arithmetic::power2::lemma2_to64();
                if left == 0 {
                    assert(pow2(0) * half == half) by (nonlinear_arith)
                        requires
                            pow2(0) == 1,
                    ;
                    assert(false);
                }
                vstd::arithmetic::power2::lemma_pow2_unfold(left);
                vstd::arithmetic::power2::lemma_pow2_pos((left - 1) as nat);
                assert(2 * half <= N) by (nonlinear_arith)
                    requires
                        N == pow2(left) * half,
                        pow2(left) == 2 * pow2((left - 1) as nat),
                        pow2((left - 1) as nat) >= 1,
                        half >= 1,
                ;
            }
            src = stage(combine, &src, half, Ghost(xs), Ghost((left - 1) as nat));
            half = 2 * half;
            proof {
                left = (left - 1) as nat;
            }
        }
        proof {
            lemma_last_stage(*combine, xs, src@, left);
        }
        src
    }
}

/// The table holds the bit-reversed order.
pub open spec fn order(table: Seq<usize>, bits: nat) -> bool {
    forall|i: int| 0 <= i < table.len() ==> #[trigger] table[i] == reversed(bits, i as nat)
}

/// Before the first stage every block is one value.
proof fn lemma_first_stage<C, F: Fn(C, usize, C) -> C>(
    combine: F,
    xs: Seq<C>,
    src: Seq<C>,
    bits: nat,
)
    requires
        src.len() == pow2(bits),
        xs.len() == src.len(),
        forall|k: int|
            0 <= k < xs.len() ==> #[trigger] xs[k] == src[reversed(bits, k as nat) as int],
    ensures
        staged(combine, xs, src, bits, 1),
{
    assert(pow2(bits) * 1 == pow2(bits));
    assert forall|j: nat| j < pow2(bits) implies #[trigger] transform(
        combine,
        strided(xs, reversed(bits, j) as int, pow2(bits) as int, 1),
        src.subrange(j * 1int, j * 1int + 1),
        xs.len(),
    ) by {
        let from = reversed(bits, j) as int;
        lemma_reversed_bound(bits, j);
        reversing_twice(bits, j);
        let one = strided(xs, from, pow2(bits) as int, 1);
        assert(xs[from] == src[j as int]);
        assert(from + 0 * pow2(bits) == from) by (nonlinear_arith);
        assert(one =~= src.subrange(j * 1int, j * 1int + 1));
    }
}

/// After the last stage there is one block, the transform of all the values.
proof fn lemma_last_stage<C, F: Fn(C, usize, C) -> C>(
    combine: F,
    xs: Seq<C>,
    work: Seq<C>,
    bits: nat,
)
    requires
        staged(combine, xs, work, bits, xs.len() as int),
        xs.len() > 0,
    ensures
        transform(combine, xs, work, xs.len()),
{
    let n = xs.len() as int;
    vstd::arithmetic::power2::lemma_pow2_pos(bits);
    assert(pow2(bits) == 1) by (nonlinear_arith)
        requires
            n == pow2(bits) * n,
            n > 0,
    ;
    if bits > 0 {
        vstd::arithmetic::power2::lemma_pow2_unfold(bits);
    }
    assert(transform(
        combine,
        strided(xs, reversed(bits, 0) as int, pow2(bits) as int, n),
        work.subrange(0 * n, 0 * n + n),
        xs.len(),
    ));
    assert(strided(xs, 0, 1, n) =~= xs);
    assert(work.subrange(0, n) =~= work);
}

/// The number of times a power of two can be halved.
fn log2(n: usize) -> (bits: u32)
    requires
        is_power_of_two(n as int),
    ensures
        pow2(bits as nat) == n,
        bits < usize::BITS,
{
    let ghost k = choose|k: nat| #[trigger] pow2(k) == n as int;
    proof {
        vstd::arithmetic::power2::lemma2_to64();
        vstd::arithmetic::power2::lemma_pow2_pos(k);
        if k >= usize::BITS {
            lemma_pow2_of_word();
            if k > usize::BITS {
                vstd::arithmetic::power2::lemma_pow2_strictly_increases(
                    usize::BITS as nat,
                    k,
                );
            }
            assert(false);
        }
    }
    let mut m: usize = n;
    let mut bits: u32 = 0;
    while m > 1
        invariant
            bits <= k < usize::BITS,
            m == pow2((k - bits) as nat),
            pow2(0) == 1,
        decreases m,
    {
        proof {
            if k == bits {
                assert(false);
            }
            vstd::arithmetic::power2::lemma_pow2_unfold((k - bits) as nat);
            vstd::arithmetic::power2::lemma_pow2_pos((k - bits - 1) as nat);
        }
        m = m / 2;
        bits += 1;
    }
    proof {
        if bits < k {
            vstd::arithmetic::power2::lemma_pow2_strictly_increases(0, (k - bits) as nat);
        }
    }
    bits
}

/// Two to the word size is one more than the largest word.
proof fn lemma_pow2_of_word()
    ensures
        pow2(usize::BITS as nat) == usize::MAX + 1,
{
    vstd::arithmetic::power2::lemma2_to64();
    vstd::arithmetic::power2::lemma2_to64_rest();
}

/// Turn a spectrum so that 0 Hz is in the middle.
pub fn post_process<C: Copy>(bins: &Vec<C>) -> (out: Vec<C>)
    requires
        bins@.len() > 0,
    ensures
        out@ == centred(bins@),
{
    let n: usize = bins.len();
    let mut out: Vec<C> = Vec::with_capacity(n);
    while out.len() < n
        invariant
            out.len() <= n,
            n == bins@.len(),
            n > 0,
            forall|j: int| 0 <= j < out.len() ==> out@[j] == centred(bins@)[j],
        decreases n - out.len(),
    {
        let i: usize = out.len();
        let k: usize = if i < n - n / 2 {
            i + n / 2
        } else {
            i - (n - n / 2)
        };
        proof {
            if i < n - n / 2 {
                vstd::arithmetic::div_mod::lemma_small_mod((i + n / 2) as nat, n as nat);
            } else {
                vstd::arithmetic::div_mod::lemma_mod_add_multiples_vanish(k as int, n as int);
                vstd::arithmetic::div_mod::lemma_small_mod(k as nat, n as nat);
            }
        }
        out.push(bins[k]);
    }
    assert(out@ =~= centred(bins@));
    out
}

/// 0 Hz is in the middle, and the negative end of the span comes first.
pub proof fn centre_is_dc<C>(bins: Seq<C>)
    requires
        bins.len() > 0,
        bins.len() % 2 == 0,
    ensures
        centred(bins)[bins.len() as int / 2] == bins[0],
        centred(bins)[0] == bins[bins.len() as int / 2],
        centred(centred(bins)) == bins,
{
    let n = bins.len() as int;
    vstd::arithmetic::div_mod::lemma_mod_self_0(n);
    vstd::arithmetic::div_mod::lemma_small_mod((n / 2) as nat, n as nat);
    assert forall|i: int| 0 <= i < n implies centred(centred(bins))[i] == bins[i] by {
        let j = (i + n / 2) % n;
        if i + n / 2 < n {
            vstd::arithmetic::div_mod::lemma_small_mod((i + n / 2) as nat, n as nat);
            vstd::arithmetic::div_mod::lemma_mod_add_multiples_vanish(i, n);
            vstd::arithmetic::div_mod::lemma_small_mod(i as nat, n as nat);
        } else {
            vstd::arithmetic::div_mod::lemma_mod_add_multiples_vanish(i - n / 2, n);
            vstd::arithmetic::div_mod::lemma_small_mod((i - n / 2) as nat, n as nat);
            vstd::arithmetic::div_mod::lemma_small_mod(i as nat, n as nat);
        }
    }
    assert(centred(centred(bins)) =~= bins);
}

/// A window gathered in two pieces is the window gathered in one, when the first
/// piece has whole pairs.
pub proof fn pieces_make_one_window<S, C, P: Fn(S, S) -> C>(
    pair: P,
    before: Seq<C>,
    between: Seq<C>,
    after: Seq<C>,
    offset: int,
    a: Seq<S>,
    b: Seq<S>,
)
    requires
        a.len() % 2 == 0,
        0 <= offset,
        offset + (a.len() + b.len()) / 2 <= before.len(),
        filled(pair, before, offset, a, between),
        filled(pair, between, offset + a.len() / 2, b, after),
    ensures
        filled(pair, before, offset, a + b, after),
{
    let all = a + b;
    let m = (a.len() / 2) as int;
    assert forall|k: int| 0 <= k < all.len() / 2 implies call_ensures(
        pair,
        (all[2 * k], all[2 * k + 1]),
        #[trigger] after[offset + k],
    ) by {
        if k < m {
            assert(after[offset + k] == between[offset + k]);
            assert(all[2 * k] == a[2 * k] && all[2 * k + 1] == a[2 * k + 1]);
        } else {
            let j = k - m;
            assert(after[offset + m + j] == after[offset + k]);
            assert(all[2 * k] == b[2 * j] && all[2 * k + 1] == b[2 * j + 1]);
            assert(call_ensures(pair, (b[2 * j], b[2 * j + 1]), after[(offset + m) + j]));
        }
    }
    assert forall|j: int|
        0 <= j < before.len() && (j < offset || j >= offset + all.len() / 2) implies
        #[trigger] after[j] == before[j] by {
        assert(between[j] == before[j]);
    }
}

} // verus!
