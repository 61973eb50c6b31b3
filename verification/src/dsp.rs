//! The index work of the signal chain: which samples meet which taps, and what
//! is carried from one block to the next.
//!
//! The arithmetic on samples is handed in by the caller, so everything here is
//! generic over the sample type.

pub mod calls;
pub mod convolution;
pub mod rates;
pub mod stages;
pub mod taps;

use vstd::prelude::*;
use vstd::slice::slice_subrange;

use crate::spmc::model::ProducerView;
use crate::spmc::RingProducer;

pub use crate::utils::next_wrapped;

verus! {

/// The window function a filter's taps are shaped with.
#[derive(Clone, Copy, Debug, PartialEq, Eq, Structural)]
pub enum Window {
    Hann,
    Hamming,
    Blackman,
    Kaiser,
}

/// Which side of the cutoff a filter lets through.
#[derive(Clone, Copy, Debug, PartialEq, Eq, Structural)]
pub enum FilterType {
    Lowpass,
    Highpass,
}

/// `d` divides `n`.
pub open spec fn divides(d: int, n: int) -> bool {
    exists|k: int| n == #[trigger] (d * k)
}

/// `g` is the greatest common divisor of `a` and `b`: it divides both, and every
/// common divisor divides it.
pub open spec fn is_gcd(g: int, a: int, b: int) -> bool {
    &&& divides(g, a)
    &&& divides(g, b)
    &&& forall|d: int| #[trigger] divides(d, a) && divides(d, b) ==> divides(d, g)
}

/// One step of Euclid's algorithm.
proof fn lemma_gcd_step(g: int, a: int, b: int)
    requires
        b > 0,
        a >= 0,
        is_gcd(g, b, a % b),
    ensures
        is_gcd(g, a, b),
{
    let q = a / b;
    vstd::arithmetic::div_mod::lemma_fundamental_div_mod(a, b);
    assert(divides(g, a)) by {
        let x = choose|k: int| b == #[trigger] (g * k);
        let y = choose|k: int| a % b == #[trigger] (g * k);
        assert(a == g * (x * q + y)) by (nonlinear_arith)
            requires
                a == b * q + a % b,
                b == g * x,
                a % b == g * y,
        ;
    }
    assert forall|d: int| #[trigger] divides(d, a) && divides(d, b) implies divides(d, g) by {
        let x = choose|k: int| a == #[trigger] (d * k);
        let y = choose|k: int| b == #[trigger] (d * k);
        assert(a % b == d * (x - y * q)) by (nonlinear_arith)
            requires
                a == b * q + a % b,
                a == d * x,
                b == d * y,
        ;
        assert(divides(d, a % b));
    }
}

/// The greatest common divisor, by which an up/down ratio is reduced.
pub fn gcd(a: usize, b: usize) -> (g: usize)
    ensures
        is_gcd(g as int, a as int, b as int),
    decreases b,
{
    if b == 0 {
        assert(a as int == a as int * 1);
        assert(0 == a as int * 0);
        a
    } else {
        let g: usize = gcd(b, a % b);
        proof {
            lemma_gcd_step(g as int, a as int, b as int);
        }
        g
    }
}

/// `r` is what `f` may answer on the samples `x` and the taps `y`.
pub open spec fn answers<S, F: Fn(&[S], &[S]) -> S>(f: F, x: Seq<S>, y: Seq<S>, r: S) -> bool {
    exists|w: &[S], t: &[S]| w@ == x && t@ == y && #[trigger] call_ensures(f, (w, t), r)
}

/// `f` can be asked about any `n` samples and `n` taps.
pub open spec fn answerable<S, F: Fn(&[S], &[S]) -> S>(f: F, n: nat) -> bool {
    forall|w: &[S], t: &[S]|
        w@.len() == n && t@.len() == n ==> #[trigger] call_requires(f, (w, t))
}

/// How many windows start in a block of `n`, the first at `offset` and each
/// `step` after the one before.
pub open spec fn windows(n: int, offset: int, step: int) -> int {
    if offset >= n {
        0
    } else {
        (n - offset + step - 1) / step
    }
}

/// A working buffer into which the block `x` has been read behind the history of
/// `t - 1` samples.
pub open spec fn loaded<S>(buf: Seq<S>, x: Seq<S>, t: int) -> Seq<S> {
    buf.take(t - 1) + x
}

/// A working buffer whose last `t - 1` samples have been kept for the next block
/// of `n`.
pub open spec fn retained<S>(buf: Seq<S>, n: int, t: int) -> Seq<S> {
    buf.subrange(n, n + t - 1) + buf.skip(t - 1)
}

/// A decimating FIR filter on I and Q: blocks of `N` samples, `T` taps, and a
/// working buffer of `P == N + T - 1` samples that starts with the `T - 1` last
/// samples of the block before.
pub struct DecimFIR<S: Copy, const P: usize, const N: usize, const T: usize> {
    pub taps: [S; T],
    pub buf_i: [S; P],
    pub buf_q: [S; P],
    /// Where in the next block the first window starts.
    pub offset: usize,
}

impl<S: Copy, const P: usize, const N: usize, const T: usize> DecimFIR<S, P, N, T> {
    /// There is a tap, and the working buffer is a block and the history.
    pub open spec fn wf(&self) -> bool {
        &&& T >= 1
        &&& P == N + T - 1
    }

    /// A filter with a silent history.
    pub fn new(taps: &[S; T], silence: S) -> (f: Self)
        requires
            T >= 1,
            P == N + T - 1,
        ensures
            f.wf(),
            f.taps@ == taps@,
            f.buf_i@ == Seq::new(P as nat, |i: int| silence),
            f.buf_q@ == Seq::new(P as nat, |i: int| silence),
            f.offset == 0,
    {
        let f = Self { taps: *taps, buf_i: [silence; P], buf_q: [silence; P], offset: 0 };
        assert(f.buf_i@ =~= Seq::new(P as nat, |i: int| silence));
        assert(f.buf_q@ =~= Seq::new(P as nat, |i: int| silence));
        f
    }

    /// Copy a block in behind the history. This comes before
    /// [`process`](Self::process).
    pub fn read_to_buf(&mut self, i: &[S; N], q: &[S; N])
        requires
            old(self).wf(),
        ensures
            final(self).wf(),
            final(self).buf_i@ == loaded(old(self).buf_i@, i@, T as int),
            final(self).buf_q@ == loaded(old(self).buf_q@, q@, T as int),
            final(self).taps == old(self).taps,
            final(self).offset == old(self).offset,
    {
        let mut k: usize = 0;
        while k < N
            invariant
                k <= N,
                T >= 1,
                P == N + T - 1,
                self.taps == old(self).taps,
                self.offset == old(self).offset,
                forall|j: int| 0 <= j < T - 1 ==> self.buf_i@[j] == old(self).buf_i@[j],
                forall|j: int| 0 <= j < T - 1 ==> self.buf_q@[j] == old(self).buf_q@[j],
                forall|j: int| 0 <= j < k ==> self.buf_i@[T - 1 + j] == #[trigger] i@[j],
                forall|j: int| 0 <= j < k ==> self.buf_q@[T - 1 + j] == #[trigger] q@[j],
            decreases N - k,
        {
            self.buf_i[T - 1 + k] = i[k];
            self.buf_q[T - 1 + k] = q[k];
            k += 1;
        }
        proof {
            let a = loaded(old(self).buf_i@, i@, T as int);
            assert forall|j: int| 0 <= j < P implies self.buf_i@[j] == a[j] by {
                if j >= T - 1 {
                    assert(a[j] == i@[j - (T - 1)]);
                }
            }
            assert(self.buf_i@ =~= a);
            let b = loaded(old(self).buf_q@, q@, T as int);
            assert forall|j: int| 0 <= j < P implies self.buf_q@[j] == b[j] by {
                if j >= T - 1 {
                    assert(b[j] == q@[j - (T - 1)]);
                }
            }
            assert(self.buf_q@ =~= b);
        }
    }

    /// Filter the block that was read, one window every `step_size` samples.
    ///
    /// `convolve` applies the taps to a window of as many samples. What a block
    /// lacks of the last window's step is carried into the next block, and the
    /// last `T - 1` samples are kept as its history.
    pub fn process<F: Fn(&[S], &[S]) -> S>(
        &mut self,
        step_size: usize,
        out_i: &mut [S],
        out_q: &mut [S],
        convolve: F,
    )
        requires
            old(self).wf(),
            step_size > 0,
            N + step_size <= usize::MAX,
            old(out_i)@.len() == N / step_size,
            old(out_q)@.len() == N / step_size,
            windows(N as int, old(self).offset as int, step_size as int) <= N / step_size,
            answerable(convolve, T as nat),
        ensures
            final(self).wf(),
            final(self).taps == old(self).taps,
            final(self).offset == old(self).offset + windows(
                N as int,
                old(self).offset as int,
                step_size as int,
            ) * step_size - N,
            final(self).buf_i@ == retained(old(self).buf_i@, N as int, T as int),
            final(self).buf_q@ == retained(old(self).buf_q@, N as int, T as int),
            final(out_i)@.len() == old(out_i)@.len(),
            final(out_q)@.len() == old(out_q)@.len(),
            forall|k: int|
                0 <= k < windows(N as int, old(self).offset as int, step_size as int) ==> answers(
                    convolve,
                    old(self).buf_i@.subrange(
                        old(self).offset + k * step_size,
                        old(self).offset + k * step_size + T,
                    ),
                    old(self).taps@,
                    #[trigger] final(out_i)@[k],
                ),
            forall|k: int|
                0 <= k < windows(N as int, old(self).offset as int, step_size as int) ==> answers(
                    convolve,
                    old(self).buf_q@.subrange(
                        old(self).offset + k * step_size,
                        old(self).offset + k * step_size + T,
                    ),
                    old(self).taps@,
                    #[trigger] final(out_q)@[k],
                ),
            forall|k: int|
                windows(N as int, old(self).offset as int, step_size as int) <= k < old(
                    out_i,
                )@.len() ==> final(out_i)@[k] == old(out_i)@[k] && final(out_q)@[k] == old(
                    out_q,
                )@[k],
    {
        let mut count: usize = 0;
        let ghost total = windows(N as int, self.offset as int, step_size as int);
        let ghost start = self.offset as int;
        while self.offset < N
            invariant
                0 <= count <= total,
                total == windows(N as int, start, step_size as int),
                total <= out_i@.len(),
                out_i@.len() == old(out_i)@.len(),
                out_q@.len() == old(out_q)@.len(),
                out_i@.len() == out_q@.len(),
                start == old(self).offset,
                self.offset == start + count * step_size,
                self.wf(),
                step_size > 0,
                N + step_size <= usize::MAX,
                self.taps == old(self).taps,
                self.buf_i == old(self).buf_i,
                self.buf_q == old(self).buf_q,
                answerable(convolve, T as nat),
                forall|k: int|
                    0 <= k < count ==> answers(
                        convolve,
                        self.buf_i@.subrange(start + k * step_size, start + k * step_size + T),
                        self.taps@,
                        #[trigger] out_i@[k],
                    ),
                forall|k: int|
                    0 <= k < count ==> answers(
                        convolve,
                        self.buf_q@.subrange(start + k * step_size, start + k * step_size + T),
                        self.taps@,
                        #[trigger] out_q@[k],
                    ),
                forall|k: int|
                    count <= k < out_i@.len() ==> out_i@[k] == old(out_i)@[k] && out_q@[k]
                        == old(out_q)@[k],
            decreases N + step_size - self.offset,
        {
            proof {
                lemma_window_in_block(N as int, start, step_size as int, count as int);
            }
            let o: usize = self.offset;
            let i = convolve(
                slice_subrange(self.buf_i.as_slice(), o, o + T),
                self.taps.as_slice(),
            );
            let q = convolve(
                slice_subrange(self.buf_q.as_slice(), o, o + T),
                self.taps.as_slice(),
            );
            assert(answers(
                convolve,
                self.buf_i@.subrange(o as int, o + T),
                self.taps@,
                i,
            ));
            assert(answers(
                convolve,
                self.buf_q@.subrange(o as int, o + T),
                self.taps@,
                q,
            ));
            out_i[count] = i;
            out_q[count] = q;
            count += 1;
            self.offset += step_size;
            assert(start + count * step_size == start + (count - 1) * step_size + step_size)
                by (nonlinear_arith);
        }
        proof {
            lemma_windows_all(N as int, start, step_size as int, count as int);
        }
        self.offset -= N;
        self.keep_history();
    }

    /// Move the last `T - 1` samples to the front.
    fn keep_history(&mut self)
        requires
            old(self).wf(),
        ensures
            final(self).wf(),
            final(self).taps == old(self).taps,
            final(self).offset == old(self).offset,
            final(self).buf_i@ == retained(old(self).buf_i@, N as int, T as int),
            final(self).buf_q@ == retained(old(self).buf_q@, N as int, T as int),
    {
        let mut k: usize = 0;
        while k < T - 1
            invariant
                k <= T - 1,
                self.wf(),
                self.taps == old(self).taps,
                self.offset == old(self).offset,
                forall|j: int| 0 <= j < k ==> self.buf_i@[j] == #[trigger] old(self).buf_i@[N + j],
                forall|j: int| 0 <= j < k ==> self.buf_q@[j] == #[trigger] old(self).buf_q@[N + j],
                forall|j: int| k <= j < P ==> self.buf_i@[j] == old(self).buf_i@[j],
                forall|j: int| k <= j < P ==> self.buf_q@[j] == old(self).buf_q@[j],
            decreases T - 1 - k,
        {
            self.buf_i[k] = self.buf_i[N + k];
            self.buf_q[k] = self.buf_q[N + k];
            k += 1;
        }
        proof {
            let a = retained(old(self).buf_i@, N as int, T as int);
            assert forall|j: int| 0 <= j < P implies self.buf_i@[j] == a[j] by {
                if j < T - 1 {
                    assert(a[j] == old(self).buf_i@[N + j]);
                }
            }
            assert(self.buf_i@ =~= a);
            let b = retained(old(self).buf_q@, N as int, T as int);
            assert forall|j: int| 0 <= j < P implies self.buf_q@[j] == b[j] by {
                if j < T - 1 {
                    assert(b[j] == old(self).buf_q@[N + j]);
                }
            }
            assert(self.buf_q@ =~= b);
        }
    }

    /// Store one pair of samples.
    pub fn set_iq(&mut self, idx: usize, i: S, q: S)
        requires
            idx < P,
        ensures
            final(self).buf_i@ == old(self).buf_i@.update(idx as int, i),
            final(self).buf_q@ == old(self).buf_q@.update(idx as int, q),
            final(self).taps == old(self).taps,
            final(self).offset == old(self).offset,
    {
        self.buf_i[idx] = i;
        self.buf_q[idx] = q;
    }
}

/// A window that starts in the block is one of those counted.
pub proof fn lemma_window_in_block(n: int, start: int, step: int, count: int)
    requires
        step > 0,
        count >= 0,
        start >= 0,
        start + count * step < n,
    ensures
        count < windows(n, start, step),
{
    assert(start < n) by (nonlinear_arith)
        requires
            step > 0,
            count >= 0,
            start + count * step < n,
    ;
    let m = n - start + step - 1;
    vstd::arithmetic::div_mod::lemma_fundamental_div_mod(m, step);
    assert(count < m / step) by (nonlinear_arith)
        requires
            step > 0,
            count * step + step <= m,
            m == step * (m / step) + m % step,
            0 <= m % step < step,
    ;
}

/// Once no window starts in the block, all have been counted.
proof fn lemma_windows_all(n: int, start: int, step: int, count: int)
    requires
        step > 0,
        0 <= count <= windows(n, start, step),
        start >= 0,
        start + count * step >= n,
    ensures
        count == windows(n, start, step),
{
    if start < n {
        let m = n - start + step - 1;
        vstd::arithmetic::div_mod::lemma_fundamental_div_mod(m, step);
        assert(count >= m / step) by (nonlinear_arith)
            requires
                step > 0,
                count * step + step - 1 >= m,
                m == step * (m / step) + m % step,
                0 <= m % step < step,
        ;
    }
}

/// The filter sees one uninterrupted stream, however it is cut into blocks: let
/// `stream` be everything ever read behind `t - 1` samples of silence. If the
/// buffer starts with the history that precedes block `b`, then after reading
/// that block every window in it is a window of the stream, and what is kept is
/// the history that precedes the next block.
pub proof fn filter_sees_one_stream<S>(
    stream: Seq<S>,
    buf: Seq<S>,
    n: int,
    t: int,
    b: int,
)
    requires
        n >= 0,
        t >= 1,
        b >= 0,
        buf.len() == n + t - 1,
        stream.len() >= b * n + n + t - 1,
        buf.take(t - 1) == stream.subrange(b * n, b * n + t - 1),
    ensures
        ({
            let block = stream.subrange(b * n + t - 1, b * n + n + t - 1);
            let full = loaded(buf, block, t);
            &&& forall|o: int|
                0 <= o < n ==> #[trigger] full.subrange(o, o + t) == stream.subrange(
                    b * n + o,
                    b * n + o + t,
                )
            &&& retained(full, n, t).len() == n + t - 1
            &&& retained(full, n, t).take(t - 1) == stream.subrange(
                (b + 1) * n,
                (b + 1) * n + t - 1,
            )
        }),
{
    assert((b + 1) * n == b * n + n) by (nonlinear_arith);
    assert(b * n >= 0) by (nonlinear_arith)
        requires
            b >= 0,
            n >= 0,
    ;
    let block = stream.subrange(b * n + t - 1, b * n + n + t - 1);
    let full = loaded(buf, block, t);
    let whole = stream.subrange(b * n, b * n + n + t - 1);
    assert forall|j: int| 0 <= j < n + t - 1 implies full[j] == whole[j] by {
        if j < t - 1 {
            assert(full[j] == buf.take(t - 1)[j]);
            assert(stream.subrange(b * n, b * n + t - 1)[j] == stream[b * n + j]);
        }
    }
    assert(full =~= whole);
    assert forall|o: int| 0 <= o < n implies #[trigger] full.subrange(o, o + t)
        == stream.subrange(b * n + o, b * n + o + t) by {
        assert(full.subrange(o, o + t) =~= stream.subrange(b * n + o, b * n + o + t));
    }
    assert(retained(full, n, t).take(t - 1) =~= stream.subrange(
        (b + 1) * n,
        (b + 1) * n + t - 1,
    ));
}

/// The windows taken are those at every `step`th sample of the stream, whatever
/// the block size: if the first window of block `b` starts at such a sample, and
/// no earlier one was left out, then so does that of the next block.
pub proof fn filter_keeps_its_step(n: int, step: int, b: int, offset: int)
    requires
        n >= 0,
        step > 0,
        b >= 0,
        0 <= offset < step,
        (b * n + offset) % step == 0,
    ensures
        ({
            let next = offset + windows(n, offset, step) * step - n;
            &&& ((b + 1) * n + next) % step == 0
            &&& offset <= n ==> 0 <= next < step
            &&& forall|k: int|
                0 <= k < windows(n, offset, step) ==> #[trigger] ((b * n + offset + k * step)
                    % step) == 0 && 0 <= offset + k * step < n
        }),
{
    let w = windows(n, offset, step);
    let next = offset + w * step - n;
    assert((b + 1) * n == b * n + n) by (nonlinear_arith);
    assert((b + 1) * n + next == (b * n + offset) + w * step);
    vstd::arithmetic::div_mod::lemma_mod_multiples_vanish(w, b * n + offset, step);
    assert(step * w == w * step) by (nonlinear_arith);
    if offset < n {
        let m = n - offset + step - 1;
        vstd::arithmetic::div_mod::lemma_fundamental_div_mod(m, step);
        assert(0 <= next < step) by {
            assert(step * (m / step) == w * step) by (nonlinear_arith)
                requires
                    w == m / step,
            ;
        }
    }
    assert forall|k: int| 0 <= k < w implies #[trigger] ((b * n + offset + k * step) % step) == 0
        && 0 <= offset + k * step < n by {
        vstd::arithmetic::div_mod::lemma_mod_multiples_vanish(k, b * n + offset, step);
        assert(step * k == k * step) by (nonlinear_arith);
        let m = n - offset + step - 1;
        vstd::arithmetic::div_mod::lemma_fundamental_div_mod(m, step);
        assert(offset + k * step < n) by (nonlinear_arith)
            requires
                k + 1 <= m / step,
                m == step * (m / step) + m % step,
                m == n - offset + step - 1,
                step > 0,
                0 <= m % step,
        ;
        assert(k * step >= 0) by (nonlinear_arith)
            requires
                k >= 0,
                step > 0,
        ;
    }
}

/// A rational resampler, up by `interp` and down by `decim`. The taps of the
/// prototype filter are dealt out to `interp` branches in turn.
pub struct PolyphaseResampler<S: Copy> {
    branches: Vec<Vec<S>>,
    interp: usize,
    decim: usize,
    /// The last samples of the block before, one less than a branch has taps.
    history: Vec<S>,
    /// The branch the next output uses.
    phase: usize,
    /// Where in the next block the next output's window starts.
    offset: usize,
    silence: S,
}

/// The state of a [`PolyphaseResampler`].
pub struct ResamplerView<S> {
    pub branches: Seq<Seq<S>>,
    pub interp: int,
    pub decim: int,
    pub history: Seq<S>,
    pub phase: int,
    pub offset: int,
    pub silence: S,
}

impl<S: Copy> View for PolyphaseResampler<S> {
    type V = ResamplerView<S>;

    closed spec fn view(&self) -> ResamplerView<S> {
        ResamplerView {
            branches: self.branches@.map_values(|b: Vec<S>| b@),
            interp: self.interp as int,
            decim: self.decim as int,
            history: self.history@,
            phase: self.phase as int,
            offset: self.offset as int,
            silence: self.silence,
        }
    }
}

/// How many taps each of `interp` branches gets of `n`.
pub open spec fn taps_per_branch(n: int, interp: int) -> int {
    (n + interp - 1) / interp
}

/// Branch `b` of the taps: every `interp`th of them, filled up with silence.
pub open spec fn branch<S>(taps: Seq<S>, interp: int, silence: S, b: int) -> Seq<S> {
    Seq::new(
        taps_per_branch(taps.len() as int, interp) as nat,
        |j: int|
            if j * interp + b < taps.len() {
                taps[j * interp + b]
            } else {
                silence
            },
    )
}

/// The last `len` samples of a block; silence in front where it has fewer.
pub open spec fn last_samples<S>(input: Seq<S>, len: int, silence: S) -> Seq<S> {
    if input.len() >= len {
        input.skip(input.len() - len)
    } else {
        Seq::new((len - input.len()) as nat, |i: int| silence) + input
    }
}

impl<S> ResamplerView<S> {
    /// There are branches, all of the same number of taps, one history less, and
    /// the next output uses one of them.
    pub open spec fn wf(self) -> bool {
        &&& self.interp > 0
        &&& self.branches.len() == self.interp
        &&& forall|b: int|
            0 <= b < self.interp ==> (#[trigger] self.branches[b]).len() == self.history.len() + 1
        &&& 0 <= self.phase < self.interp
        &&& 0 <= self.offset
    }

    /// How far, in steps of one `interp`th of a sample, output `m` of a block
    /// lies behind the sample the first one's window starts at.
    pub open spec fn ticks(self, m: int) -> int {
        self.phase + m * self.decim
    }

    /// Where in the working buffer the window of output `m` starts.
    pub open spec fn position(self, m: int) -> int {
        self.offset + self.ticks(m) / self.interp
    }

    /// How many outputs a block of `n` samples yields.
    pub open spec fn outputs(self, n: int) -> int {
        if self.offset >= n {
            0
        } else {
            ((n - self.offset) * self.interp - self.phase + self.decim - 1) / self.decim
        }
    }

    /// The state after a block.
    pub open spec fn after(self, input: Seq<S>) -> Self {
        let c = self.outputs(input.len() as int);
        ResamplerView {
            history: last_samples(input, self.history.len() as int, self.silence),
            phase: self.ticks(c) % self.interp,
            offset: self.position(c) - input.len(),
            ..self
        }
    }
}

/// Output `m` starts within a block of `n` exactly if it is one of those counted.
pub proof fn lemma_output_in_block<S>(r: ResamplerView<S>, n: int, m: int)
    requires
        r.wf(),
        r.decim > 0,
        m >= 0,
        n >= 0,
    ensures
        r.position(m) < n <==> m < r.outputs(n),
        r.offset < n ==> 0 <= r.outputs(n),
{
    let u = r.ticks(m);
    let i = r.interp;
    assert(u >= 0) by (nonlinear_arith)
        requires
            u == r.phase + m * r.decim,
            r.phase >= 0,
            m >= 0,
            r.decim > 0,
    ;
    vstd::arithmetic::div_mod::lemma_div_pos_is_pos(u, i);
    vstd::arithmetic::div_mod::lemma_fundamental_div_mod(u, i);
    if r.offset < n {
        let room = (n - r.offset) * i;
        assert(u / i < n - r.offset <==> u < room) by (nonlinear_arith)
            requires
                room == (n - r.offset) * i,
                u == i * (u / i) + u % i,
                0 <= u % i < i,
        ;
        let d = r.decim;
        let span = room - r.phase;
        assert(span >= 1) by (nonlinear_arith)
            requires
                span == (n - r.offset) * i - r.phase,
                n - r.offset >= 1,
                i > 0,
                r.phase < i,
        ;
        let k = span + d - 1;
        vstd::arithmetic::div_mod::lemma_fundamental_div_mod(k, d);
        vstd::arithmetic::div_mod::lemma_div_pos_is_pos(k, d);
        assert(m * d < span <==> m < k / d) by (nonlinear_arith)
            requires
                d > 0,
                k == span + d - 1,
                k == d * (k / d) + k % d,
                0 <= k % d < d,
        ;
    }
}

/// There is room for every output of a block in a buffer that could hold the
/// whole block resampled.
pub proof fn outputs_fit<S>(r: ResamplerView<S>, n: int)
    requires
        r.wf(),
        r.decim > 0,
        n >= 0,
    ensures
        r.outputs(n) <= (n * r.interp + r.decim - 1) / r.decim,
        0 <= (n * r.interp + r.decim - 1) / r.decim,
{
    let d = r.decim;
    assert(n * r.interp >= 0) by (nonlinear_arith)
        requires
            n >= 0,
            r.interp > 0,
    ;
    vstd::arithmetic::div_mod::lemma_div_pos_is_pos(n * r.interp + d - 1, d);
    if r.offset < n {
        assert((n - r.offset) * r.interp - r.phase <= n * r.interp) by (nonlinear_arith)
            requires
                r.offset >= 0,
                r.interp > 0,
                r.phase >= 0,
        ;
        vstd::arithmetic::div_mod::lemma_div_is_ordered(
            (n - r.offset) * r.interp - r.phase + d - 1,
            n * r.interp + d - 1,
            d,
        );
    }
}

/// One more output: phase and position advance by the step.
proof fn lemma_tick<S>(r: ResamplerView<S>, m: int)
    requires
        r.wf(),
        r.decim > 0,
        m >= 0,
    ensures
        ({
            let before = r.ticks(m) % r.interp + r.decim;
            &&& r.ticks(m + 1) % r.interp == before % r.interp
            &&& r.position(m + 1) == r.position(m) + before / r.interp
            &&& 0 <= r.ticks(m) % r.interp < r.interp
        }),
{
    let u = r.ticks(m);
    let i = r.interp;
    let d = r.decim;
    assert(r.ticks(m + 1) == u + d) by (nonlinear_arith)
        requires
            r.ticks(m + 1) == r.phase + (m + 1) * d,
            u == r.phase + m * d,
    ;
    vstd::arithmetic::div_mod::lemma_fundamental_div_mod(u, i);
    vstd::arithmetic::div_mod::lemma_hoist_over_denominator(u % i + d, u / i, i as nat);
    vstd::arithmetic::div_mod::lemma_mod_multiples_vanish(u / i, u % i + d, i);
    assert(u + d == i * (u / i) + (u % i + d));
}

impl<S: Copy> PolyphaseResampler<S> {
    /// A resampler with a silent history.
    pub fn new(interp: usize, decim: usize, taps: &[S], silence: S) -> (r: Self)
        requires
            interp > 0,
            taps@.len() > 0,
            taps@.len() + interp <= usize::MAX,
        ensures
            r@.wf(),
            r@.interp == interp,
            r@.decim == decim,
            r@.silence == silence,
            r@.phase == 0,
            r@.offset == 0,
            r@.history == Seq::new(
                (taps_per_branch(taps@.len() as int, interp as int) - 1) as nat,
                |i: int| silence,
            ),
            forall|b: int|
                0 <= b < interp ==> #[trigger] r@.branches[b] == branch(
                    taps@,
                    interp as int,
                    silence,
                    b,
                ),
    {
        let per_branch: usize = (taps.len() + interp - 1) / interp;
        assert(per_branch >= 1) by {
            vstd::arithmetic::div_mod::lemma_div_non_zero(taps@.len() + interp - 1, interp as int);
        }
        let mut branches: Vec<Vec<S>> = Vec::new();
        let mut b: usize = 0;
        while b < interp
            invariant
                b <= interp,
                interp > 0,
                taps@.len() + interp <= usize::MAX,
                per_branch == taps_per_branch(taps@.len() as int, interp as int),
                branches.len() == b,
                forall|c: int|
                    0 <= c < b ==> (#[trigger] branches@[c])@ == branch(
                        taps@,
                        interp as int,
                        silence,
                        c,
                    ),
            decreases interp - b,
        {
            let one = deal(taps, interp, silence, b, per_branch);
            branches.push(one);
            b += 1;
        }
        let history: Vec<S> = fill(silence, per_branch - 1);
        let r = Self { branches, interp, decim, history, phase: 0, offset: 0, silence };
        assert forall|b: int| 0 <= b < interp implies #[trigger] r@.branches[b] == branch(
            taps@,
            interp as int,
            silence,
            b,
        ) by {
            assert(r.branches@[b]@ == branch(taps@, interp as int, silence, b));
        }
        r
    }

    /// Resample one block into `output`, and say how many samples it yielded.
    ///
    /// `dot` applies a branch to a window of as many samples. What a block lacks
    /// of the last output's step is carried into the next one.
    pub fn process<F: Fn(&[S], &[S]) -> S>(
        &mut self,
        input: &[S],
        output: &mut [S],
        dot: F,
    ) -> (count: usize)
        requires
            old(self)@.wf(),
            old(self)@.decim > 0,
            input@.len() * old(self)@.interp <= usize::MAX,
            old(self)@.history.len() + input@.len() <= usize::MAX,
            old(self)@.interp + old(self)@.decim + input@.len() < usize::MAX,
            old(output)@.len() >= (input@.len() * old(self)@.interp + old(self)@.decim - 1) / old(
                self,
            )@.decim,
            answerable(dot, (old(self)@.history.len() + 1) as nat),
        ensures
            final(self)@ == old(self)@.after(input@),
            final(self)@.wf(),
            count == old(self)@.outputs(input@.len() as int),
            count <= (input@.len() * old(self)@.interp + old(self)@.decim - 1) / old(self)@.decim,
            final(output)@.len() == old(output)@.len(),
            forall|m: int|
                0 <= m < count ==> answers(
                    dot,
                    old(self)@.branches[old(self)@.ticks(m) % old(self)@.interp],
                    (old(self)@.history + input@).subrange(
                        old(self)@.position(m),
                        old(self)@.position(m) + old(self)@.history.len() + 1,
                    ),
                    #[trigger] final(output)@[m],
                ),
            forall|m: int|
                count <= m < final(output)@.len() ==> final(output)@[m] == old(output)@[m],
    {
        let hist_len: usize = self.history.len();
        let n: usize = input.len();
        let mut buf: Vec<S> = Vec::with_capacity(hist_len + n);
        append(&mut buf, self.history.as_slice());
        append(&mut buf, input);
        let ghost r = self@;
        let ghost all = r.history + input@;
        assert(buf@ =~= all);
        let mut pos: usize = self.offset;
        let mut count: usize = 0;
        proof {
            outputs_fit(r, n as int);
            assert(r.ticks(0) == r.phase) by (nonlinear_arith)
                requires
                    r.ticks(0) == r.phase + 0 * r.decim,
            ;
            vstd::arithmetic::div_mod::lemma_small_mod(r.phase as nat, r.interp as nat);
            vstd::arithmetic::div_mod::lemma_basic_div(r.phase, r.interp);
        }
        while pos < n
            invariant
                self@ == (ResamplerView { phase: r.ticks(count as int) % r.interp, ..r }),
                r.wf(),
                r.decim > 0,
                r.interp + r.decim + n < usize::MAX,
                hist_len == r.history.len(),
                n == input@.len(),
                buf@ == all,
                all == r.history + input@,
                hist_len + n <= usize::MAX,
                pos == r.position(count as int),
                0 <= count <= output@.len(),
                r.outputs(n as int) <= output@.len(),
                output@.len() == old(output)@.len(),
                answerable(dot, (hist_len + 1) as nat),
                forall|m: int|
                    0 <= m < count ==> answers(
                        dot,
                        r.branches[r.ticks(m) % r.interp],
                        all.subrange(r.position(m), r.position(m) + hist_len + 1),
                        #[trigger] output@[m],
                    ),
                forall|m: int| count <= m < output@.len() ==> output@[m] == old(output)@[m],
                count > 0 ==> r.position(count - 1) < n,
            decreases r.outputs(n as int) - count,
        {
            proof {
                lemma_output_in_block(r, n as int, count as int);
                lemma_tick(r, count as int);
            }
            let b: &[S] = self.branches[self.phase].as_slice();
            assert(b@ == r.branches[r.ticks(count as int) % r.interp]);
            let x = dot(b, slice_subrange(buf.as_slice(), pos, pos + hist_len + 1));
            assert(answers(
                dot,
                r.branches[r.ticks(count as int) % r.interp],
                all.subrange(pos as int, pos + hist_len + 1),
                x,
            ));
            output[count] = x;
            count += 1;
            let next: usize = self.phase + self.decim;
            pos += next / self.interp;
            self.phase = next % self.interp;
        }
        proof {
            lemma_output_in_block(r, n as int, count as int);
            if count > 0 {
                lemma_output_in_block(r, n as int, count - 1);
            }
        }
        self.offset = pos - n;
        let silence = self.silence;
        self.history = keep_last(input, hist_len, silence);
        assert(self@ == r.after(input@));
        count
    }
}

/// `len` copies of a sample.
fn fill<S: Copy>(x: S, len: usize) -> (v: Vec<S>)
    ensures
        v@ == Seq::new(len as nat, |i: int| x),
{
    let mut v: Vec<S> = Vec::new();
    while v.len() < len
        invariant
            v.len() <= len,
            forall|j: int| 0 <= j < v.len() ==> v@[j] == x,
        decreases len - v.len(),
    {
        v.push(x);
    }
    assert(v@ =~= Seq::new(len as nat, |i: int| x));
    v
}

/// Append a slice.
fn append<S: Copy>(v: &mut Vec<S>, x: &[S])
    ensures
        final(v)@ == old(v)@ + x@,
{
    let mut k: usize = 0;
    while k < x.len()
        invariant
            k <= x@.len(),
            v@ == old(v)@ + x@.take(k as int),
        decreases x@.len() - k,
    {
        v.push(x[k]);
        assert(x@.take(k as int + 1) =~= x@.take(k as int).push(x@[k as int]));
        k += 1;
    }
    assert(x@.take(k as int) =~= x@);
}

/// One branch of the taps.
fn deal<S: Copy>(taps: &[S], interp: usize, silence: S, b: usize, per_branch: usize) -> (v: Vec<S>)
    requires
        b < interp,
        taps@.len() + interp <= usize::MAX,
        per_branch == taps_per_branch(taps@.len() as int, interp as int),
    ensures
        v@ == branch(taps@, interp as int, silence, b as int),
{
    let mut v: Vec<S> = Vec::new();
    let mut k: usize = b;
    while v.len() < per_branch
        invariant
            v.len() <= per_branch,
            per_branch == taps_per_branch(taps@.len() as int, interp as int),
            b < interp,
            taps@.len() + interp <= usize::MAX,
            k == v.len() * interp + b || (k >= taps@.len() && v.len() * interp + b
                >= taps@.len()),
            forall|j: int|
                0 <= j < v.len() ==> v@[j] == branch(taps@, interp as int, silence, b as int)[j],
        decreases per_branch - v.len(),
    {
        let ghost j = v.len() as int;
        assert((j + 1) * interp + b == j * interp + b + interp) by (nonlinear_arith);
        if k < taps.len() {
            v.push(taps[k]);
            k += interp;
        } else {
            v.push(silence);
        }
    }
    assert(v@ =~= branch(taps@, interp as int, silence, b as int));
    v
}

/// The last `len` samples of a block, silence in front where it has fewer.
fn keep_last<S: Copy>(input: &[S], len: usize, silence: S) -> (v: Vec<S>)
    ensures
        v@ == last_samples(input@, len as int, silence),
{
    let n: usize = input.len();
    let missing: usize = if n < len {
        len - n
    } else {
        0
    };
    let from: usize = n.saturating_sub(len);
    let mut v: Vec<S> = fill(silence, missing);
    append(&mut v, slice_subrange(input, from, n));
    assert(v@ =~= last_samples(input@, len as int, silence));
    v
}

/// Every tap is dealt to exactly one place: tap `k` to branch `k % interp`.
pub proof fn taps_are_dealt_in_turn<S>(taps: Seq<S>, interp: int, silence: S, k: int)
    requires
        interp > 0,
        0 <= k < taps.len(),
    ensures
        0 <= k / interp < taps_per_branch(taps.len() as int, interp),
        branch(taps, interp, silence, k % interp)[k / interp] == taps[k],
{
    vstd::arithmetic::div_mod::lemma_fundamental_div_mod(k, interp);
    vstd::arithmetic::div_mod::lemma_div_pos_is_pos(k, interp);
    let n = taps.len() + interp - 1;
    vstd::arithmetic::div_mod::lemma_fundamental_div_mod(n, interp);
    assert(k / interp < n / interp) by (nonlinear_arith)
        requires
            interp > 0,
            k == interp * (k / interp) + k % interp,
            n == interp * (n / interp) + n % interp,
            0 <= k % interp,
            n % interp < interp,
            k + interp <= n,
    ;
    assert((k / interp) * interp + k % interp == k) by (nonlinear_arith)
        requires
            k == interp * (k / interp) + k % interp,
    ;
}

/// The rate is exact over any number of blocks: output `j` of the whole run uses
/// branch `j * decim % interp` at sample `j * decim / interp` of the whole
/// input. If that has held for `made` outputs and `taken` samples, it holds of
/// every output of the next block, and after it.
pub proof fn resampler_keeps_its_rate<S>(
    r: ResamplerView<S>,
    input: Seq<S>,
    made: int,
    taken: int,
)
    requires
        r.wf(),
        r.decim > 0,
        made >= 0,
        r.phase == (made * r.decim) % r.interp,
        taken + r.offset == (made * r.decim) / r.interp,
    ensures
        ({
            let c = r.outputs(input.len() as int);
            let next = r.after(input);
            &&& forall|m: int|
                0 <= m ==> #[trigger] r.ticks(m) % r.interp == ((made + m) * r.decim) % r.interp
                    && taken + r.position(m) == ((made + m) * r.decim) / r.interp
            &&& 0 <= c
            &&& next.phase == ((made + c) * r.decim) % r.interp
            &&& taken + input.len() + next.offset == ((made + c) * r.decim) / r.interp
            &&& next.wf()
        }),
{
    let i = r.interp;
    let d = r.decim;
    let a = made * d;
    vstd::arithmetic::div_mod::lemma_fundamental_div_mod(a, i);
    assert forall|m: int| 0 <= m implies #[trigger] r.ticks(m) % r.interp == ((made + m)
        * r.decim) % r.interp && taken + r.position(m) == ((made + m) * r.decim) / r.interp by {
        let u = r.ticks(m);
        assert((made + m) * d == i * (a / i) + u) by (nonlinear_arith)
            requires
                a == made * d,
                a == i * (a / i) + a % i,
                u == a % i + m * d,
        ;
        vstd::arithmetic::div_mod::lemma_hoist_over_denominator(u, a / i, i as nat);
        vstd::arithmetic::div_mod::lemma_mod_multiples_vanish(a / i, u, i);
    }
    let n = input.len() as int;
    let c = r.outputs(n);
    lemma_output_in_block(r, n, 0);
    if c < 0 {
        assert(false);
    }
    lemma_output_in_block(r, n, c);
    assert(r.ticks(c) % r.interp == ((made + c) * r.decim) % r.interp);
}

/// The resampler sees one uninterrupted stream, however it is cut into blocks no
/// shorter than the history: let `stream` be everything ever fed behind a silent
/// history. If the history precedes sample `taken`, then history and block
/// together are a piece of the stream, and what is kept precedes the next block.
pub proof fn resampler_sees_one_stream<S>(
    stream: Seq<S>,
    r: ResamplerView<S>,
    input: Seq<S>,
    taken: int,
)
    requires
        taken >= 0,
        taken + r.history.len() + input.len() <= stream.len(),
        r.history == stream.subrange(taken, taken + r.history.len()),
        input == stream.subrange(
            taken + r.history.len(),
            taken + r.history.len() + input.len(),
        ),
        input.len() >= r.history.len(),
    ensures
        r.history + input == stream.subrange(taken, taken + r.history.len() + input.len()),
        r.after(input).history == stream.subrange(
            taken + input.len(),
            taken + input.len() + r.history.len(),
        ),
{
    assert(r.history + input =~= stream.subrange(
        taken,
        taken + r.history.len() + input.len(),
    ));
    assert(r.after(input).history =~= stream.subrange(
        taken + input.len(),
        taken + input.len() + r.history.len(),
    ));
}

/// Gathers pieces of any size into blocks of `N` and writes each full block into
/// a ring.
pub struct PartialWriter<T: Copy + Default, const N: usize> {
    buf: [T; N],
    cursor: usize,
    producer: RingProducer<T, 16, N>,
}

/// The state of a [`PartialWriter`].
pub struct WriterView<T> {
    /// The block under construction; what lies behind the cursor is left over.
    pub buf: Seq<T>,
    pub cursor: int,
    pub producer: ProducerView<T>,
}

impl<T: Copy + Default, const N: usize> View for PartialWriter<T, N> {
    type V = WriterView<T>;

    closed spec fn view(&self) -> WriterView<T> {
        WriterView { buf: self.buf@, cursor: self.cursor as int, producer: self.producer@ }
    }
}

/// `dst` with `src` copied in at `at`.
pub open spec fn overlaid<T>(dst: Seq<T>, at: int, src: Seq<T>) -> Seq<T> {
    dst.take(at) + src + dst.skip(at + src.len())
}

impl<T> WriterView<T> {
    /// A block is never overfull, and the ring has no other block open.
    pub open spec fn wf(self, n: nat) -> bool {
        &&& self.buf.len() == n
        &&& 0 <= self.cursor <= n
        &&& self.producer.wf(16, n)
        &&& self.producer.fill == 0
    }

    /// The state after a piece. A block is written when the piece does not fit
    /// into what is left of it; what is left of the piece starts the next one.
    pub open spec fn write(self, src: Seq<T>) -> Self {
        let room = self.buf.len() - self.cursor;
        if src.len() <= room {
            WriterView {
                buf: overlaid(self.buf, self.cursor, src),
                cursor: self.cursor + src.len(),
                ..self
            }
        } else {
            let full = overlaid(self.buf, self.cursor, src.take(room));
            WriterView {
                buf: overlaid(full, 0, src.skip(room)),
                cursor: src.len() - room,
                producer: self.producer.write(full, self.buf.len()).0,
            }
        }
    }
}

/// Copy a slice into an array.
fn overlay<T: Copy, const N: usize>(dst: &mut [T; N], at: usize, src: &[T])
    requires
        at + src@.len() <= N,
    ensures
        final(dst)@ == overlaid(old(dst)@, at as int, src@),
{
    let mut k: usize = 0;
    while k < src.len()
        invariant
            k <= src@.len(),
            at + src@.len() <= N,
            forall|j: int| 0 <= j < k ==> dst@[at + j] == #[trigger] src@[j],
            forall|j: int| 0 <= j < at ==> dst@[j] == old(dst)@[j],
            forall|j: int| at + k <= j < N ==> dst@[j] == old(dst)@[j],
        decreases src@.len() - k,
    {
        dst[at + k] = src[k];
        k += 1;
    }
    proof {
        let want = overlaid(old(dst)@, at as int, src@);
        assert forall|j: int| 0 <= j < N implies dst@[j] == want[j] by {
            if at <= j < at + src@.len() {
                assert(want[j] == src@[j - at]);
            }
        }
        assert(dst@ =~= want);
    }
}

impl<T: Copy + Default, const N: usize> PartialWriter<T, N> {
    /// A writer with an empty block.
    pub fn new(producer: RingProducer<T, 16, N>) -> (w: Self)
        requires
            producer.wf(),
            producer@.fill == 0,
        ensures
            w@.wf(N as nat),
            w@.cursor == 0,
            w@.producer == producer@,
    {
        PartialWriter { buf: [T::default(); N], cursor: 0, producer }
    }

    /// How many samples are in the block under construction.
    pub fn cursor(&self) -> (k: usize)
        ensures
            k == self@.cursor,
    {
        self.cursor
    }

    /// The producer that full blocks are written with.
    pub fn producer_mut(&mut self) -> (p: &mut RingProducer<T, 16, N>)
        ensures
            p@ == old(self)@.producer,
            final(self)@ == (WriterView { producer: final(p)@, ..old(self)@ }),
    {
        &mut self.producer
    }

    /// Add a piece of at most a block's size, and say how much of it went into
    /// the block that was under construction.
    pub fn write<const M: usize>(&mut self, src: &[T; M]) -> (taken: usize)
        requires
            old(self)@.wf(N as nat),
            M <= old(self)@.buf.len() - old(self)@.cursor + N,
            old(self)@.producer.ring.head + 1 < u64::MAX,
        ensures
            final(self)@.wf(N as nat),
            final(self)@ == old(self)@.write(src@),
            taken == (if M <= N - old(self)@.cursor {
                M as int
            } else {
                N - old(self)@.cursor
            }),
    {
        let remained: usize = N - self.cursor;
        if M <= remained {
            overlay(&mut self.buf, self.cursor, src.as_slice());
            self.cursor += M;
            M
        } else {
            overlay(&mut self.buf, self.cursor, slice_subrange(src.as_slice(), 0, remained));
            assert(src@.subrange(0, remained as int) =~= src@.take(remained as int));
            let _ = self.producer.write(self.buf.as_slice());
            overlay(&mut self.buf, 0, slice_subrange(src.as_slice(), remained, M));
            assert(src@.subrange(remained as int, M as int) =~= src@.skip(remained as int));
            self.cursor = M - remained;
            remained
        }
    }
}

/// Nothing is lost between pieces and blocks: what the ring has published plus
/// what is under construction is, after a piece, what it was before followed by
/// the piece. A ring that refuses the block is the exception.
pub proof fn pieces_add_up<T>(w: WriterView<T>, src: Seq<T>, n: nat)
    requires
        w.wf(n),
        src.len() <= n - w.cursor + n,
        !w.producer.refuses(),
    ensures
        ({
            let v = w.write(src);
            let before = w.producer.ring.published;
            let after = v.producer.ring.published;
            &&& after.take(before.len() as int) == before
            &&& after.skip(before.len() as int).flatten() + v.buf.take(v.cursor) == w.buf.take(
                w.cursor,
            ) + src
        }),
{
    let v = w.write(src);
    let before = w.producer.ring.published;
    let after = v.producer.ring.published;
    let room = n - w.cursor;
    if src.len() <= room {
        assert(after.take(before.len() as int) =~= before);
        assert(after.skip(before.len() as int) =~= Seq::<Seq<T>>::empty());
        assert(v.buf.take(v.cursor) =~= w.buf.take(w.cursor) + src);
        assert(Seq::<Seq<T>>::empty().flatten() =~= Seq::<T>::empty());
        assert(Seq::<T>::empty() + v.buf.take(v.cursor) =~= v.buf.take(v.cursor));
    } else {
        let full = overlaid(w.buf, w.cursor, src.take(room));
        assert(full.len() == n);
        let ring = w.producer.reap().ring;
        vstd::arithmetic::div_mod::lemma_mod_bound(ring.head as int, 16);
        w.producer.ring.lemma_fill(16, n, full);
        assert(after =~= before.push(full));
        assert(after.take(before.len() as int) =~= before);
        let fresh = after.skip(before.len() as int);
        assert(fresh =~= seq![full]);
        fresh.lemma_flatten_one_element();
        assert(fresh.flatten() =~= full);
        assert(full + v.buf.take(v.cursor) =~= w.buf.take(w.cursor) + src);
    }
}

/// `r` is what averaging may make of a sum and one sample more.
pub open spec fn averaged<S, F: Fn(S, S) -> S, G: Fn(S) -> S>(
    sum: F,
    mean: G,
    acc: S,
    x: S,
    r: S,
) -> bool {
    exists|total: S|
        #[trigger] call_ensures(sum, (acc, x), total) && call_ensures(mean, (total,), r)
}

/// A two-stage averaging decimator: means of `IQ_DECIM` pairs, and means of
/// `POST_DECIM` samples.
pub struct Decim<S: Copy, const IQ_DECIM: u32, const POST_DECIM: u32> {
    zero: S,
    i_acc: S,
    q_acc: S,
    iq_n: u32,
    post_acc: S,
    post_n: u32,
}

/// The state of a [`Decim`].
pub struct DecimView<S> {
    pub zero: S,
    pub i_acc: S,
    pub q_acc: S,
    pub iq_n: int,
    pub post_acc: S,
    pub post_n: int,
}

impl<S: Copy, const IQ_DECIM: u32, const POST_DECIM: u32> View for Decim<
    S,
    IQ_DECIM,
    POST_DECIM,
> {
    type V = DecimView<S>;

    closed spec fn view(&self) -> DecimView<S> {
        DecimView {
            zero: self.zero,
            i_acc: self.i_acc,
            q_acc: self.q_acc,
            iq_n: self.iq_n as int,
            post_acc: self.post_acc,
            post_n: self.post_n as int,
        }
    }
}

impl<S: Copy, const IQ_DECIM: u32, const POST_DECIM: u32> Decim<S, IQ_DECIM, POST_DECIM> {
    /// Neither stage has gathered a full sum.
    pub open spec fn wf(&self) -> bool {
        &&& 0 <= self@.iq_n
        &&& self@.iq_n == 0 || self@.iq_n < IQ_DECIM
        &&& 0 <= self@.post_n
        &&& self@.post_n == 0 || self@.post_n < POST_DECIM
    }

    /// Nothing gathered.
    pub fn new(zero: S) -> (d: Self)
        ensures
            d.wf(),
            d@ == (DecimView {
                zero,
                i_acc: zero,
                q_acc: zero,
                iq_n: 0,
                post_acc: zero,
                post_n: 0,
            }),
    {
        Decim { zero, i_acc: zero, q_acc: zero, iq_n: 0, post_acc: zero, post_n: 0 }
    }

    /// Add a pair; on every `IQ_DECIM`th, hand the two means out and start over.
    /// `mean` makes the mean of a sum.
    pub fn iq_decim<F: Fn(S, S) -> S, G: Fn(S) -> S>(
        &mut self,
        i: S,
        q: S,
        sum: &F,
        mean: &G,
    ) -> (r: Option<(S, S)>)
        requires
            old(self).wf(),
            forall|a: S, b: S| #[trigger] call_requires(*sum, (a, b)),
            forall|a: S| #[trigger] call_requires(*mean, (a,)),
        ensures
            final(self).wf(),
            r is Some <==> old(self)@.iq_n + 1 >= IQ_DECIM,
            r matches Some(means) ==> averaged(*sum, *mean, old(self)@.i_acc, i, means.0)
                && averaged(*sum, *mean, old(self)@.q_acc, q, means.1) && final(self)@ == (
            DecimView {
                i_acc: old(self)@.zero,
                q_acc: old(self)@.zero,
                iq_n: 0,
                ..old(self)@
            }),
            r is None ==> call_ensures(*sum, (old(self)@.i_acc, i), final(self)@.i_acc)
                && call_ensures(*sum, (old(self)@.q_acc, q), final(self)@.q_acc) && final(self)@
                == (DecimView {
                i_acc: final(self)@.i_acc,
                q_acc: final(self)@.q_acc,
                iq_n: old(self)@.iq_n + 1,
                ..old(self)@
            }),
    {
        self.i_acc = sum(self.i_acc, i);
        self.q_acc = sum(self.q_acc, q);
        self.iq_n += 1;
        if self.iq_n < IQ_DECIM {
            return None;
        }
        let means = (mean(self.i_acc), mean(self.q_acc));
        self.i_acc = self.zero;
        self.q_acc = self.zero;
        self.iq_n = 0;
        Some(means)
    }

    /// Add a sample; on every `POST_DECIM`th, hand the mean out and start over.
    /// `mean` makes the mean of a sum, at the volume it is to be heard.
    pub fn post_decim<F: Fn(S, S) -> S, G: Fn(S) -> S>(
        &mut self,
        x: S,
        sum: &F,
        mean: &G,
    ) -> (r: Option<S>)
        requires
            old(self).wf(),
            forall|a: S, b: S| #[trigger] call_requires(*sum, (a, b)),
            forall|a: S| #[trigger] call_requires(*mean, (a,)),
        ensures
            final(self).wf(),
            r is Some <==> old(self)@.post_n + 1 >= POST_DECIM,
            r matches Some(m) ==> averaged(*sum, *mean, old(self)@.post_acc, x, m) && final(self)@
                == (DecimView { post_acc: old(self)@.zero, post_n: 0, ..old(self)@ }),
            r is None ==> call_ensures(*sum, (old(self)@.post_acc, x), final(self)@.post_acc)
                && final(self)@ == (DecimView {
                post_acc: final(self)@.post_acc,
                post_n: old(self)@.post_n + 1,
                ..old(self)@
            }),
    {
        self.post_acc = sum(self.post_acc, x);
        self.post_n += 1;
        if self.post_n < POST_DECIM {
            return None;
        }
        let m = mean(self.post_acc);
        self.post_acc = self.zero;
        self.post_n = 0;
        Some(m)
    }
}

} // verus!
