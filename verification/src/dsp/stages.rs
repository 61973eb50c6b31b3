//! The stages of the chain that carry something from one sample to the next:
//! the DC blocker, the translator, the discriminator and the de-emphasis.
//!
//! The arithmetic is handed in by the caller; here is what meets what, and what
//! is carried across blocks.

use vstd::prelude::*;

verus! {

/// A high-pass filter for the energy leaked at the centre: a leaky integrator
/// follows the constant part of the signal, and what it has gathered is taken
/// off.
pub struct DcBlocker<S: Copy> {
    pub offset: S,
}

/// `ys` is what a blocker may make of `xs`; `offsets` are its offsets before each
/// sample and after the last.
pub open spec fn blocked<S, F: Fn(S, S) -> S, G: Fn(S, S) -> S>(
    less: F,
    integrate: G,
    offsets: Seq<S>,
    xs: Seq<S>,
    ys: Seq<S>,
) -> bool {
    &&& ys.len() == xs.len()
    &&& offsets.len() == xs.len() + 1
    &&& forall|k: int|
        0 <= k < xs.len() ==> call_ensures(less, (xs[k], offsets[k]), #[trigger] ys[k])
    &&& forall|k: int|
        0 <= k < xs.len() ==> call_ensures(
            integrate,
            (#[trigger] offsets[k], ys[k]),
            offsets[k + 1],
        )
}

impl<S: Copy> DcBlocker<S> {
    /// A blocker that takes off nothing yet.
    pub fn new(silence: S) -> (b: Self)
        ensures
            b.offset == silence,
    {
        DcBlocker { offset: silence }
    }

    /// Take the offset off a sample. `less` subtracts, and `integrate` adds a part
    /// of the result to the offset.
    pub fn process<F: Fn(S, S) -> S, G: Fn(S, S) -> S>(
        &mut self,
        x: S,
        less: &F,
        integrate: &G,
    ) -> (y: S)
        requires
            forall|a: S, b: S| #[trigger] call_requires(*less, (a, b)),
            forall|a: S, b: S| #[trigger] call_requires(*integrate, (a, b)),
        ensures
            call_ensures(*less, (x, old(self).offset), y),
            call_ensures(*integrate, (old(self).offset, y), final(self).offset),
    {
        let y = less(x, self.offset);
        self.offset = integrate(self.offset, y);
        y
    }
}

/// That filter on I and on Q.
pub struct IqDcBlocker<S: Copy> {
    pub i_blocker: DcBlocker<S>,
    pub q_blocker: DcBlocker<S>,
}

impl<S: Copy> IqDcBlocker<S> {
    /// Blockers that take off nothing yet.
    pub fn new(silence: S) -> (b: Self)
        ensures
            b.i_blocker.offset == silence,
            b.q_blocker.offset == silence,
    {
        IqDcBlocker { i_blocker: DcBlocker::new(silence), q_blocker: DcBlocker::new(silence) }
    }

    /// Take the offsets off a pair: each leg has its own.
    pub fn process<F: Fn(S, S) -> S, G: Fn(S, S) -> S>(
        &mut self,
        i: S,
        q: S,
        less: &F,
        integrate: &G,
    ) -> (r: (S, S))
        requires
            forall|a: S, b: S| #[trigger] call_requires(*less, (a, b)),
            forall|a: S, b: S| #[trigger] call_requires(*integrate, (a, b)),
        ensures
            call_ensures(*less, (i, old(self).i_blocker.offset), r.0),
            call_ensures(
                *integrate,
                (old(self).i_blocker.offset, r.0),
                final(self).i_blocker.offset,
            ),
            call_ensures(*less, (q, old(self).q_blocker.offset), r.1),
            call_ensures(
                *integrate,
                (old(self).q_blocker.offset, r.1),
                final(self).q_blocker.offset,
            ),
    {
        (self.i_blocker.process(i, less, integrate), self.q_blocker.process(q, less, integrate))
    }
}

/// A blocker sees one uninterrupted stream, however it is cut into blocks.
pub proof fn blocker_sees_one_stream<S, F: Fn(S, S) -> S, G: Fn(S, S) -> S>(
    less: F,
    integrate: G,
    o: Seq<S>,
    p: Seq<S>,
    a: (Seq<S>, Seq<S>),
    b: (Seq<S>, Seq<S>),
)
    requires
        blocked(less, integrate, o, a.0, a.1),
        blocked(less, integrate, p, b.0, b.1),
        p[0] == o.last(),
    ensures
        blocked(less, integrate, o + p.skip(1), a.0 + b.0, a.1 + b.1),
{
    let offsets = o + p.skip(1);
    let (x, y) = (a.0 + b.0, a.1 + b.1);
    let n = a.0.len() as int;
    assert forall|k: int| 0 <= k < x.len() implies call_ensures(
        less,
        (x[k], offsets[k]),
        #[trigger] y[k],
    ) by {
        if k < n {
            assert(offsets[k] == o[k] && y[k] == a.1[k]);
        } else {
            assert(offsets[k] == p[k - n]);
            assert(y[k] == b.1[k - n]);
        }
    }
    assert forall|k: int| 0 <= k < x.len() implies call_ensures(
        integrate,
        (#[trigger] offsets[k], y[k]),
        offsets[k + 1],
    ) by {
        if k < n {
            assert(offsets[k] == o[k] && offsets[k + 1] == o[k + 1] && y[k] == a.1[k]);
        } else {
            assert(offsets[k] == p[k - n]);
            assert(offsets[k + 1] == p[k - n + 1]);
            assert(y[k] == b.1[k - n]);
        }
    }
}

/// The arithmetic is exact in the given values: `less` subtracts, and `integrate`
/// adds `rate` times the result to the offset.
pub open spec fn integrates_exactly<S, F: Fn(S, S) -> S, G: Fn(S, S) -> S>(
    less: F,
    integrate: G,
    value: spec_fn(S) -> real,
    rate: real,
) -> bool {
    &&& forall|x: S, o: S, y: S| #[trigger]
        call_ensures(less, (x, o), y) ==> value(y) == value(x) - value(o)
    &&& forall|o: S, y: S, next: S| #[trigger]
        call_ensures(integrate, (o, y), next) ==> value(next) == value(o) + rate * value(y)
}

/// A power of a real number.
pub open spec fn power(x: real, k: nat) -> real
    decreases k,
{
    if k == 0 {
        1 as real
    } else {
        x * power(x, (k - 1) as nat)
    }
}

/// A constant dies away: in exact arithmetic, of one that goes on and on, every
/// output is `1 - rate` of the one before.
pub proof fn constant_dies_away<S, F: Fn(S, S) -> S, G: Fn(S, S) -> S>(
    less: F,
    integrate: G,
    value: spec_fn(S) -> real,
    rate: real,
    level: S,
    offsets: Seq<S>,
    xs: Seq<S>,
    ys: Seq<S>,
    k: nat,
)
    requires
        integrates_exactly(less, integrate, value, rate),
        blocked(less, integrate, offsets, xs, ys),
        forall|j: int| 0 <= j < xs.len() ==> xs[j] == level,
        k < ys.len(),
    ensures
        value(ys[k as int]) == power(1 as real - rate, k) * (value(level) - value(offsets[0])),
    decreases k,
{
    let first = value(level) - value(offsets[0]);
    assert(call_ensures(less, (xs[k as int], offsets[k as int]), ys[k as int]));
    if k == 0 {
        assert(power(1 as real - rate, 0) * first == first) by (nonlinear_arith)
            requires
                power(1 as real - rate, 0) == 1 as real,
        ;
    } else {
        let j = (k - 1) as nat;
        constant_dies_away(less, integrate, value, rate, level, offsets, xs, ys, j);
        assert(call_ensures(less, (xs[j as int], offsets[j as int]), ys[j as int]));
        assert(call_ensures(
            integrate,
            (offsets[j as int], ys[j as int]),
            offsets[j as int + 1],
        ));
        let (c, o, y) = (value(level), value(offsets[j as int]), value(ys[j as int]));
        let p = power(1 as real - rate, j);
        assert(power(1 as real - rate, k) == (1 as real - rate) * p);
        assert(c - (o + rate * y) == (1 as real - rate) * y) by (nonlinear_arith)
            requires
                y == c - o,
        ;
        assert((1 as real - rate) * (p * first) == ((1 as real - rate) * p) * first)
            by (nonlinear_arith);
    }
}

/// A power of a number between 0 and 1 shrinks at least as fast as the harmonic
/// series.
proof fn lemma_power_shrinks(rate: real, k: nat)
    requires
        (0 as real) < rate < (1 as real),
    ensures
        power(1 as real - rate, k) > 0 as real,
        power(1 as real - rate, k) * (1 as real + (k as real) * rate) <= 1 as real,
    decreases k,
{
    let q = 1 as real - rate;
    if k == 0 {
        assert(power(q, 0) == 1 as real);
        assert(1 as real * (1 as real + (0 as real) * rate) <= 1 as real) by (nonlinear_arith);
    } else {
        let j = (k - 1) as nat;
        lemma_power_shrinks(rate, j);
        let p = power(q, j);
        let n = j as real;
        assert(k as real == n + 1 as real);
        assert(power(q, k) == q * p);
        assert(q * p > 0 as real) by (nonlinear_arith)
            requires
                q > 0 as real,
                p > 0 as real,
        ;
        let growth = 1 as real + n * rate;
        let shed = (n + 1 as real) * (rate * rate);
        let next = 1 as real + (n + 1 as real) * rate;
        let gained = (n + 1 as real) * rate;
        assert(gained == n * rate + rate) by (nonlinear_arith)
            requires
                gained == (n + 1 as real) * rate,
        ;
        assert(rate * gained == shed) by (nonlinear_arith)
            requires
                gained == (n + 1 as real) * rate,
                shed == (n + 1 as real) * (rate * rate),
        ;
        assert(q * next == next - rate * next) by (nonlinear_arith)
            requires
                q == 1 as real - rate,
        ;
        assert(rate * next == rate + rate * gained) by (nonlinear_arith)
            requires
                next == 1 as real + gained,
        ;
        assert(q * next == growth - shed);
        assert((q * p) * next == p * (q * next)) by (nonlinear_arith);
        assert(p * (growth - shed) == p * growth - p * shed) by (nonlinear_arith);
        assert(shed >= 0 as real) by (nonlinear_arith)
            requires
                shed == (n + 1 as real) * (rate * rate),
                n >= 0 as real,
        ;
        assert(p * shed >= 0 as real) by (nonlinear_arith)
            requires
                p > 0 as real,
                shed >= 0 as real,
        ;
    }
}

/// From some output on, what is left of a value lies below any bound.
proof fn lemma_falls_below(rate: real, first: real, bound: real) -> (k: nat)
    requires
        (0 as real) < rate < (1 as real),
        bound > 0 as real,
    ensures
        forall|j: nat|
            j >= k ==> -bound < #[trigger] power(1 as real - rate, j) * first && power(
                1 as real - rate,
                j,
            ) * first < bound,
{
    let size = if first < 0 as real {
        -first
    } else {
        first
    };
    let step = bound * rate;
    assert(step > 0 as real) by (nonlinear_arith)
        requires
            step == bound * rate,
            bound > 0 as real,
            rate > 0 as real,
    ;
    let most = size / step;
    let whole = most.floor();
    let k: nat = if whole < 0 {
        0
    } else {
        (whole + 1) as nat
    };
    assert(k as real > most);
    assert(most * step == size) by (nonlinear_arith)
        requires
            most == size / step,
            step > 0 as real,
    ;
    assert forall|j: nat| j >= k implies -bound < #[trigger] power(1 as real - rate, j) * first
        && power(1 as real - rate, j) * first < bound by {
        lemma_power_shrinks(rate, j);
        let p = power(1 as real - rate, j);
        let n = j as real;
        assert(n > most);
        let growth = 1 as real + n * rate;
        assert(n * rate >= 0 as real) by (nonlinear_arith)
            requires
                n >= 0 as real,
                rate > 0 as real,
        ;
        let over = n * rate;
        assert(bound * growth == bound + bound * over) by (nonlinear_arith)
            requires
                growth == 1 as real + over,
        ;
        assert(bound * over == n * step) by (nonlinear_arith)
            requires
                over == n * rate,
                step == bound * rate,
        ;
        assert(n * step > most * step) by (nonlinear_arith)
            requires
                n > most,
                step > 0 as real,
        ;
        let share = p * growth;
        assert(size * share <= size) by (nonlinear_arith)
            requires
                size >= 0 as real,
                share <= 1 as real,
        ;
        let left = p * size;
        assert(size * (p * growth) == left * growth) by (nonlinear_arith)
            requires
                left == p * size,
        ;
        assert(left < bound) by (nonlinear_arith)
            requires
                left * growth < bound * growth,
                growth > 0 as real,
        ;
        assert(first == size || first == -size);
        assert(p * (-size) == -(p * size)) by (nonlinear_arith);
        assert(p * size >= 0 as real) by (nonlinear_arith)
            requires
                p > 0 as real,
                size >= 0 as real,
        ;
    }
    k
}

/// A constant is removed: in exact arithmetic, and with a rate between 0 and 1,
/// the outputs fall below any bound, and stay there, once it has gone on for long
/// enough.
pub proof fn constant_is_removed<S, F: Fn(S, S) -> S, G: Fn(S, S) -> S>(
    less: F,
    integrate: G,
    value: spec_fn(S) -> real,
    rate: real,
    level: S,
    offset: S,
    bound: real,
) -> (k: nat)
    requires
        integrates_exactly(less, integrate, value, rate),
        (0 as real) < rate < (1 as real),
        bound > 0 as real,
    ensures
        forall|offsets: Seq<S>, xs: Seq<S>, ys: Seq<S>, j: int| #[trigger]
            blocked(less, integrate, offsets, xs, ys) && offsets[0] == offset && xs == Seq::new(
                xs.len(),
                |i: int| level,
            ) && k <= j < ys.len() ==> -bound < value(#[trigger] ys[j]) && value(ys[j]) < bound,
{
    let first = value(level) - value(offset);
    let k = lemma_falls_below(rate, first, bound);
    assert forall|offsets: Seq<S>, xs: Seq<S>, ys: Seq<S>, j: int| #[trigger]
        blocked(less, integrate, offsets, xs, ys) && offsets[0] == offset && xs == Seq::new(
            xs.len(),
            |i: int| level,
        ) && k <= j < ys.len() implies -bound < value(#[trigger] ys[j]) && value(ys[j]) < bound by {
        assert forall|i: int| 0 <= i < xs.len() implies xs[i] == level by {
            assert(Seq::new(xs.len(), |i: int| level)[i] == level);
        }
        constant_dies_away(less, integrate, value, rate, level, offsets, xs, ys, j as nat);
        assert(value(ys[j]) == power(1 as real - rate, j as nat) * first);
    }
    k
}

/// Samples from one correction of the phase to the next.
pub const CORRECTION: u32 = 512;

/// Shifts the spectrum by turning every sample a little further than the one
/// before.
pub struct Xlator<C: Copy> {
    pub phase: C,
    pub delta: C,
    /// Samples since the phase was last corrected.
    pub n: u32,
}

/// `next` is what a step may make of the phase: turned by `delta`, and every so
/// often corrected, for it drifts over many products.
pub open spec fn turned<C, F: Fn(C, C) -> C, G: Fn(C) -> C>(
    times: F,
    correct: G,
    delta: C,
    since: int,
    phase: C,
    next: C,
) -> bool {
    if (since + 1) % (CORRECTION as int) == 0 {
        exists|drifted: C|
            #[trigger] call_ensures(times, (phase, delta), drifted) && call_ensures(
                correct,
                (drifted,),
                next,
            )
    } else {
        call_ensures(times, (phase, delta), next)
    }
}

/// `ys` is what a translator may make of `xs`; `phases` are its phases before
/// each sample and after the last.
pub open spec fn translated<C, F: Fn(C, C) -> C, G: Fn(C) -> C>(
    times: F,
    correct: G,
    delta: C,
    since: int,
    phases: Seq<C>,
    xs: Seq<C>,
    ys: Seq<C>,
) -> bool {
    &&& ys.len() == xs.len()
    &&& phases.len() == xs.len() + 1
    &&& forall|k: int|
        0 <= k < xs.len() ==> call_ensures(times, (xs[k], phases[k]), #[trigger] ys[k])
    &&& forall|k: int|
        0 <= k < xs.len() ==> turned(
            times,
            correct,
            delta,
            since + k,
            #[trigger] phases[k],
            phases[k + 1],
        )
}

impl<C: Copy> Xlator<C> {
    /// The phase is not due for a correction yet.
    pub open spec fn wf(&self) -> bool {
        self.n < CORRECTION
    }

    /// A translator at phase `one` that turns by `delta` a sample.
    pub fn new(one: C, delta: C) -> (x: Self)
        ensures
            x.wf(),
            x.phase == one,
            x.delta == delta,
            x.n == 0,
    {
        Xlator { phase: one, delta, n: 0 }
    }

    /// Turn by another `delta` from now on, without a jump in phase.
    pub fn set_offset(&mut self, delta: C)
        ensures
            *final(self) == (Xlator { delta, ..*old(self) }),
    {
        self.delta = delta;
    }

    /// Turn one sample.
    pub fn process_sample<F: Fn(C, C) -> C, G: Fn(C) -> C>(
        &mut self,
        x: C,
        times: &F,
        correct: &G,
    ) -> (y: C)
        requires
            old(self).wf(),
            forall|a: C, b: C| #[trigger] call_requires(*times, (a, b)),
            forall|a: C| #[trigger] call_requires(*correct, (a,)),
        ensures
            final(self).wf(),
            call_ensures(*times, (x, old(self).phase), y),
            turned(
                *times,
                *correct,
                old(self).delta,
                old(self).n as int,
                old(self).phase,
                final(self).phase,
            ),
            final(self).delta == old(self).delta,
            final(self).n == (old(self).n + 1) % (CORRECTION as int),
    {
        let y = times(x, self.phase);
        self.phase = times(self.phase, self.delta);
        self.n += 1;
        if self.n >= CORRECTION {
            self.phase = correct(self.phase);
            self.n = 0;
        }
        y
    }

    /// Turn a block.
    pub fn process<F: Fn(C, C) -> C, G: Fn(C) -> C>(
        &mut self,
        buf: &mut [C],
        times: &F,
        correct: &G,
    )
        requires
            old(self).wf(),
            forall|a: C, b: C| #[trigger] call_requires(*times, (a, b)),
            forall|a: C| #[trigger] call_requires(*correct, (a,)),
        ensures
            final(self).wf(),
            final(self).delta == old(self).delta,
            final(self).n == (old(self).n + old(buf)@.len()) % (CORRECTION as int),
            exists|phases: Seq<C>|
                #[trigger] translated(
                    *times,
                    *correct,
                    old(self).delta,
                    old(self).n as int,
                    phases,
                    old(buf)@,
                    final(buf)@,
                ) && phases[0] == old(self).phase && phases.last() == final(self).phase,
    {
        let ghost before = *self;
        let ghost xs = buf@;
        let ghost mut phases = seq![self.phase];
        let len: usize = buf.len();
        let mut k: usize = 0;
        while k < len
            invariant
                k <= len,
                len == xs.len(),
                buf@.len() == len,
                self.wf(),
                self.delta == before.delta,
                self.n == (before.n + k) % (CORRECTION as int),
                phases.len() == k + 1,
                phases[0] == before.phase,
                phases[k as int] == self.phase,
                forall|a: C, b: C| #[trigger] call_requires(*times, (a, b)),
                forall|a: C| #[trigger] call_requires(*correct, (a,)),
                forall|j: int| k <= j < len ==> buf@[j] == xs[j],
                forall|j: int|
                    0 <= j < k ==> call_ensures(*times, (xs[j], phases[j]), #[trigger] buf@[j]),
                forall|j: int|
                    0 <= j < k ==> turned(
                        *times,
                        *correct,
                        before.delta,
                        before.n + j,
                        #[trigger] phases[j],
                        phases[j + 1],
                    ),
            decreases len - k,
        {
            let ghost since = self.n as int;
            let ghost phase = self.phase;
            let y = self.process_sample(buf[k], times, correct);
            buf[k] = y;
            proof {
                lemma_since(before.n as int, k as int, CORRECTION as int);
                assert(turned(*times, *correct, before.delta, before.n + k, phase, self.phase));
                let more = phases.push(self.phase);
                assert forall|j: int| 0 <= j < k + 1 implies turned(
                    *times,
                    *correct,
                    before.delta,
                    before.n + j,
                    #[trigger] more[j],
                    more[j + 1],
                ) by {
                    if j < k {
                        assert(more[j] == phases[j] && more[j + 1] == phases[j + 1]);
                    }
                }
                assert forall|j: int| 0 <= j < k + 1 implies call_ensures(
                    *times,
                    (xs[j], more[j]),
                    #[trigger] buf@[j],
                ) by {
                    if j < k {
                        assert(more[j] == phases[j]);
                    }
                }
                phases = more;
            }
            k += 1;
        }
        assert(translated(
            *times,
            *correct,
            before.delta,
            before.n as int,
            phases,
            xs,
            buf@,
        ));
    }
}

/// Whether a correction is due depends on the count modulo its period.
pub proof fn lemma_since(n: int, k: int, period: int)
    requires
        period > 0,
    ensures
        ((n + k) % period + 1) % period == (n + k + 1) % period,
{
    vstd::arithmetic::div_mod::lemma_add_mod_noop(n + k, 1, period);
    vstd::arithmetic::div_mod::lemma_mod_twice(n + k, period);
    vstd::arithmetic::div_mod::lemma_add_mod_noop((n + k) % period, 1, period);
}

/// A translator sees one uninterrupted stream, however it is cut into blocks.
pub proof fn translator_sees_one_stream<C, F: Fn(C, C) -> C, G: Fn(C) -> C>(
    times: F,
    correct: G,
    delta: C,
    since: int,
    p: Seq<C>,
    q: Seq<C>,
    a: Seq<C>,
    b: Seq<C>,
    y: Seq<C>,
    z: Seq<C>,
)
    requires
        since >= 0,
        translated(times, correct, delta, since, p, a, y),
        translated(times, correct, delta, (since + a.len()) % (CORRECTION as int), q, b, z),
        q[0] == p.last(),
    ensures
        translated(times, correct, delta, since, p + q.skip(1), a + b, y + z),
{
    let phases = p + q.skip(1);
    let xs = a + b;
    let ys = y + z;
    let n = a.len() as int;
    assert forall|k: int| 0 <= k < xs.len() implies call_ensures(
        times,
        (xs[k], phases[k]),
        #[trigger] ys[k],
    ) by {
        if k < n {
            assert(phases[k] == p[k] && ys[k] == y[k]);
        } else {
            assert(phases[k] == q[k - n]);
            assert(ys[k] == z[k - n]);
        }
    }
    assert forall|k: int| 0 <= k < xs.len() implies turned(
        times,
        correct,
        delta,
        since + k,
        #[trigger] phases[k],
        phases[k + 1],
    ) by {
        if k < n {
            assert(phases[k] == p[k] && phases[k + 1] == p[k + 1]);
        } else {
            assert(phases[k] == q[k - n]);
            assert(phases[k + 1] == q[k - n + 1]);
            let period = CORRECTION as int;
            vstd::arithmetic::div_mod::lemma_add_mod_noop(since + n, k - n + 1, period);
            vstd::arithmetic::div_mod::lemma_add_mod_noop(
                (since + n) % period,
                k - n + 1,
                period,
            );
            vstd::arithmetic::div_mod::lemma_mod_twice(since + n, period);
            assert(((since + n) % period + (k - n) + 1) % period == (since + k + 1) % period);
        }
    }
}

/// The discriminator: every sample against the one before.
pub struct Demodulation<S: Copy> {
    pub prev_i: S,
    pub prev_q: S,
}

/// The sample before sample `k` of a block.
pub open spec fn before<S>(first: S, x: Seq<S>, k: int) -> S {
    if k == 0 {
        first
    } else {
        x[k - 1]
    }
}

/// The last sample there is.
pub open spec fn latest<S>(first: S, x: Seq<S>) -> S {
    before(first, x, x.len() as int)
}

/// `out` is what a discriminator may make of `i` and `q` behind a sample.
pub open spec fn demodulated<S, F: Fn(S, S, S, S) -> S>(
    angle: F,
    prev_i: S,
    prev_q: S,
    i: Seq<S>,
    q: Seq<S>,
    out: Seq<S>,
) -> bool {
    &&& i.len() == out.len()
    &&& q.len() == out.len()
    &&& forall|k: int|
        0 <= k < out.len() ==> call_ensures(
            angle,
            (i[k], q[k], before(prev_i, i, k), before(prev_q, q, k)),
            #[trigger] out[k],
        )
}

impl<S: Copy> Demodulation<S> {
    /// A discriminator behind silence.
    pub fn new(silence: S) -> (d: Self)
        ensures
            d.prev_i == silence,
            d.prev_q == silence,
    {
        Demodulation { prev_i: silence, prev_q: silence }
    }

    /// Demodulate a block. `angle` takes a sample and the one before.
    pub fn process<F: Fn(S, S, S, S) -> S>(
        &mut self,
        i: &[S],
        q: &[S],
        out: &mut [S],
        angle: &F,
    )
        requires
            i@.len() == old(out)@.len(),
            q@.len() == old(out)@.len(),
            forall|a: S, b: S, c: S, d: S| #[trigger] call_requires(*angle, (a, b, c, d)),
        ensures
            demodulated(*angle, old(self).prev_i, old(self).prev_q, i@, q@, final(out)@),
            final(self).prev_i == latest(old(self).prev_i, i@),
            final(self).prev_q == latest(old(self).prev_q, q@),
    {
        let ghost start = *self;
        let len: usize = i.len();
        let mut k: usize = 0;
        while k < len
            invariant
                k <= len,
                len == i@.len(),
                len == q@.len(),
                len == out@.len(),
                self.prev_i == before(start.prev_i, i@, k as int),
                self.prev_q == before(start.prev_q, q@, k as int),
                forall|a: S, b: S, c: S, d: S| #[trigger] call_requires(*angle, (a, b, c, d)),
                forall|j: int|
                    0 <= j < k ==> call_ensures(
                        *angle,
                        (i@[j], q@[j], before(start.prev_i, i@, j), before(start.prev_q, q@, j)),
                        #[trigger] out@[j],
                    ),
            decreases len - k,
        {
            let x = i[k];
            let y = q[k];
            let o = angle(x, y, self.prev_i, self.prev_q);
            out[k] = o;
            self.prev_i = x;
            self.prev_q = y;
            k += 1;
        }
    }
}

/// A discriminator sees one uninterrupted stream, however it is cut into blocks.
pub proof fn discriminator_sees_one_stream<S, F: Fn(S, S, S, S) -> S>(
    angle: F,
    prev_i: S,
    prev_q: S,
    a: (Seq<S>, Seq<S>, Seq<S>),
    b: (Seq<S>, Seq<S>, Seq<S>),
)
    requires
        demodulated(angle, prev_i, prev_q, a.0, a.1, a.2),
        demodulated(angle, latest(prev_i, a.0), latest(prev_q, a.1), b.0, b.1, b.2),
    ensures
        demodulated(angle, prev_i, prev_q, a.0 + b.0, a.1 + b.1, a.2 + b.2),
        latest(prev_i, a.0 + b.0) == latest(latest(prev_i, a.0), b.0),
        latest(prev_q, a.1 + b.1) == latest(latest(prev_q, a.1), b.1),
{
    let (i, q, out) = (a.0 + b.0, a.1 + b.1, a.2 + b.2);
    let n = a.2.len() as int;
    assert forall|k: int| 0 <= k < out.len() implies call_ensures(
        angle,
        (i[k], q[k], before(prev_i, i, k), before(prev_q, q, k)),
        #[trigger] out[k],
    ) by {
        if k < n {
            assert(out[k] == a.2[k]);
            assert(before(prev_i, i, k) == before(prev_i, a.0, k));
            assert(before(prev_q, q, k) == before(prev_q, a.1, k));
        } else {
            assert(out[k] == b.2[k - n]);
            assert(before(prev_i, i, k) == before(latest(prev_i, a.0), b.0, k - n));
            assert(before(prev_q, q, k) == before(latest(prev_q, a.1), b.1, k - n));
        }
    }
}

/// The de-emphasis pole: every output from a sample and the output before.
pub struct Deemphasis<S: Copy> {
    pub last_out: S,
}

/// `y` is what the pole may make of `x` behind an output.
pub open spec fn smoothed<S, F: Fn(S, S) -> S>(
    pole: F,
    last: S,
    x: Seq<S>,
    y: Seq<S>,
) -> bool {
    &&& y.len() == x.len()
    &&& forall|k: int|
        0 <= k < y.len() ==> call_ensures(pole, (x[k], before(last, y, k)), #[trigger] y[k])
}

impl<S: Copy> Deemphasis<S> {
    /// A pole behind silence.
    pub fn new(silence: S) -> (d: Self)
        ensures
            d.last_out == silence,
    {
        Deemphasis { last_out: silence }
    }

    /// Smooth the first `count` samples in place; the others are left alone.
    pub fn process<F: Fn(S, S) -> S>(&mut self, buf: &mut [S], count: usize, pole: &F)
        requires
            count <= old(buf)@.len(),
            forall|a: S, b: S| #[trigger] call_requires(*pole, (a, b)),
        ensures
            final(buf)@.len() == old(buf)@.len(),
            smoothed(
                *pole,
                old(self).last_out,
                old(buf)@.take(count as int),
                final(buf)@.take(count as int),
            ),
            final(buf)@.skip(count as int) == old(buf)@.skip(count as int),
            final(self).last_out == latest(old(self).last_out, final(buf)@.take(count as int)),
    {
        let ghost start = *self;
        let ghost xs = buf@;
        let mut k: usize = 0;
        while k < count
            invariant
                k <= count,
                count <= xs.len(),
                buf@.len() == xs.len(),
                self.last_out == before(start.last_out, buf@, k as int),
                forall|a: S, b: S| #[trigger] call_requires(*pole, (a, b)),
                forall|j: int| k <= j < xs.len() ==> buf@[j] == xs[j],
                forall|j: int|
                    0 <= j < k ==> call_ensures(
                        *pole,
                        (xs[j], before(start.last_out, buf@, j)),
                        #[trigger] buf@[j],
                    ),
            decreases count - k,
        {
            let ghost earlier = buf@;
            let y = pole(buf[k], self.last_out);
            buf[k] = y;
            self.last_out = y;
            proof {
                assert forall|j: int| 0 <= j < k + 1 implies call_ensures(
                    *pole,
                    (xs[j], before(start.last_out, buf@, j)),
                    #[trigger] buf@[j],
                ) by {
                    assert(before(start.last_out, buf@, j) == before(start.last_out, earlier, j));
                    if j < k {
                        assert(buf@[j] == earlier[j]);
                    }
                }
            }
            k += 1;
        }
        proof {
            let x = xs.take(count as int);
            let y = buf@.take(count as int);
            assert forall|j: int| 0 <= j < y.len() implies call_ensures(
                *pole,
                (x[j], before(start.last_out, y, j)),
                #[trigger] y[j],
            ) by {
                assert(y[j] == buf@[j]);
                assert(before(start.last_out, y, j) == before(start.last_out, buf@, j));
            }
            assert(buf@.skip(count as int) =~= xs.skip(count as int));
        }
    }
}

/// The pole sees one uninterrupted stream, however it is cut into blocks: a
/// varying length does no harm.
pub proof fn pole_sees_one_stream<S, F: Fn(S, S) -> S>(
    pole: F,
    last: S,
    a: (Seq<S>, Seq<S>),
    b: (Seq<S>, Seq<S>),
)
    requires
        smoothed(pole, last, a.0, a.1),
        smoothed(pole, latest(last, a.1), b.0, b.1),
    ensures
        smoothed(pole, last, a.0 + b.0, a.1 + b.1),
        latest(last, a.1 + b.1) == latest(latest(last, a.1), b.1),
{
    let (x, y) = (a.0 + b.0, a.1 + b.1);
    let n = a.1.len() as int;
    assert forall|k: int| 0 <= k < y.len() implies call_ensures(
        pole,
        (x[k], before(last, y, k)),
        #[trigger] y[k],
    ) by {
        if k < n {
            assert(y[k] == a.1[k]);
            assert(before(last, y, k) == before(last, a.1, k));
        } else {
            assert(y[k] == b.1[k - n]);
            assert(before(last, y, k) == before(latest(last, a.1), b.1, k - n));
        }
    }
}

} // verus!
