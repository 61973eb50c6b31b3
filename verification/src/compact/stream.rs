//! The receive chain of the compact radio as a whole: what it makes of a stream of
//! bytes, however they come.

use vstd::prelude::*;

use crate::compact::receive::{silent, Detector, ReceiverView};
use crate::dsp::averaged;

verus! {

/// One leg of the pairs, centred.
#[verifier::opaque]
pub open spec fn centred<S, B: Fn(u8) -> S>(
    center: B,
    bytes: Seq<u8>,
    leg: int,
    x: Seq<S>,
) -> bool {
    &&& x.len() == bytes.len() / 2
    &&& forall|k: int|
        0 <= k < x.len() ==> call_ensures(center, (bytes[2 * k + leg],), #[trigger] x[k])
}

/// A signal through the high-pass filter: every answer from a sample, the one before
/// and the answer before, silence standing before the first.
#[verifier::opaque]
pub open spec fn high_passed<S, H: Fn(S, S, S) -> S>(
    highpass: H,
    silence: S,
    x: Seq<S>,
    y: Seq<S>,
) -> bool {
    &&& y.len() == x.len()
    &&& forall|k: int|
        0 <= k < y.len() ==> call_ensures(
            highpass,
            (
                x[k],
                if k == 0 {
                    silence
                } else {
                    x[k - 1]
                },
                if k == 0 {
                    silence
                } else {
                    y[k - 1]
                },
            ),
            #[trigger] y[k],
        )
}

/// The running sums of a signal, begun anew after every `period` samples.
#[verifier::opaque]
pub open spec fn summed<S, P: Fn(S, S) -> S>(
    sum: P,
    zero: S,
    period: int,
    x: Seq<S>,
    s: Seq<S>,
) -> bool {
    &&& s.len() == x.len()
    &&& forall|k: int|
        0 <= k < s.len() ==> call_ensures(
            sum,
            (
                if k % period == 0 {
                    zero
                } else {
                    s[k - 1]
                },
                x[k],
            ),
            #[trigger] s[k],
        )
}

/// The means of the sums of `period` samples each.
#[verifier::opaque]
pub open spec fn meant<S, M: Fn(S) -> S>(mean: M, period: int, s: Seq<S>, m: Seq<S>) -> bool {
    &&& m.len() == s.len() as int / period
    &&& forall|j: int|
        0 <= j < m.len() ==> call_ensures(
            mean,
            (s[period * j + period - 1],),
            #[trigger] m[j],
        )
}

/// Every pair against the whole pair before it, silence standing before the first.
#[verifier::opaque]
pub open spec fn discriminated<S, A: Fn(S, S, S, S) -> S>(
    angle: A,
    silence: S,
    i: Seq<S>,
    q: Seq<S>,
    v: Seq<S>,
) -> bool {
    &&& v.len() == i.len()
    &&& v.len() == q.len()
    &&& forall|j: int|
        0 <= j < v.len() ==> call_ensures(
            angle,
            (
                i[j],
                q[j],
                if j == 0 {
                    silence
                } else {
                    i[j - 1]
                },
                if j == 0 {
                    silence
                } else {
                    q[j - 1]
                },
            ),
            #[trigger] v[j],
        )
}

/// Every value against the output before it, silence standing before the first.
#[verifier::opaque]
pub open spec fn eased<S, E: Fn(S, S) -> S>(pole: E, silence: S, v: Seq<S>, e: Seq<S>) -> bool {
    &&& e.len() == v.len()
    &&& forall|j: int|
        0 <= j < e.len() ==> call_ensures(
            pole,
            (
                v[j],
                if j == 0 {
                    silence
                } else {
                    e[j - 1]
                },
            ),
            #[trigger] e[j],
        )
}

/// The signals of the chain.
pub struct Signals<S> {
    /// The centred samples.
    pub x_i: Seq<S>,
    pub x_q: Seq<S>,
    /// The high-passed ones.
    pub h_i: Seq<S>,
    pub h_q: Seq<S>,
    /// Their running sums.
    pub s_i: Seq<S>,
    pub s_q: Seq<S>,
    /// Their means of ten.
    pub m_i: Seq<S>,
    pub m_q: Seq<S>,
    /// The angles from mean to mean.
    pub v: Seq<S>,
    /// The de-emphasized ones.
    pub e: Seq<S>,
    /// Their running sums.
    pub s: Seq<S>,
    /// What is heard: their means of five.
    pub out: Seq<S>,
}

impl<B, H, P, M, A, E, V> Detector<B, H, P, M, A, E, V> {
    /// The signals are what the chain makes of the bytes.
    pub open spec fn demodulates<S>(self, bytes: Seq<u8>, silence: S, t: Signals<S>) -> bool where
        B: Fn(u8) -> S,
        H: Fn(S, S, S) -> S,
        P: Fn(S, S) -> S,
        M: Fn(S) -> S,
        A: Fn(S, S, S, S) -> S,
        E: Fn(S, S) -> S,
        V: Fn(S) -> S,
     {
        &&& centred(self.center, bytes, 0, t.x_i)
        &&& centred(self.center, bytes, 1, t.x_q)
        &&& high_passed(self.highpass, silence, t.x_i, t.h_i)
        &&& high_passed(self.highpass, silence, t.x_q, t.h_q)
        &&& summed(self.sum, silence, 10, t.h_i, t.s_i)
        &&& summed(self.sum, silence, 10, t.h_q, t.s_q)
        &&& meant(self.mean, 10, t.s_i, t.m_i)
        &&& meant(self.mean, 10, t.s_q, t.m_q)
        &&& discriminated(self.angle, silence, t.m_i, t.m_q, t.v)
        &&& eased(self.pole, silence, t.v, t.e)
        &&& summed(self.sum, silence, 5, t.e, t.s)
        &&& meant(self.heard, 5, t.s, t.out)
    }
}

/// The last of a signal, or silence before its first.
spec fn last_or<S>(silence: S, x: Seq<S>) -> S {
    if x.len() == 0 {
        silence
    } else {
        x.last()
    }
}

/// The state of the chain behind its signals.
spec fn state_behind<S>(silence: S, t: Signals<S>, v: ReceiverView<S>) -> bool {
    let n = t.x_i.len() as int;
    let j = t.e.len() as int;
    &&& v.high_i == (last_or(silence, t.x_i), last_or(silence, t.h_i))
    &&& v.high_q == (last_or(silence, t.x_q), last_or(silence, t.h_q))
    &&& v.decim.zero == silence
    &&& v.decim.iq_n == n % 10
    &&& v.decim.i_acc == if n % 10 == 0 {
        silence
    } else {
        t.s_i.last()
    }
    &&& v.decim.q_acc == if n % 10 == 0 {
        silence
    } else {
        t.s_q.last()
    }
    &&& v.decim.post_n == j % 5
    &&& v.decim.post_acc == if j % 5 == 0 {
        silence
    } else {
        t.s.last()
    }
    &&& v.prev == (last_or(silence, t.m_i), last_or(silence, t.m_q))
    &&& v.last_out == last_or(silence, t.e)
}

proof fn lemma_centred<S, B: Fn(u8) -> S>(
    center: B,
    bytes: Seq<u8>,
    n: int,
    leg: int,
    x: Seq<S>,
    y: S,
)
    requires
        n >= 1,
        2 * n <= bytes.len(),
        0 <= leg <= 1,
        centred(center, bytes.take(2 * (n - 1)), leg, x),
        call_ensures(center, (bytes[2 * (n - 1) + leg],), y),
    ensures
        centred(center, bytes.take(2 * n), leg, x.push(y)),
{
    reveal(centred);
    let a = bytes.take(2 * (n - 1));
    let b = bytes.take(2 * n);
    assert(x.len() == n - 1);
    assert forall|k: int| 0 <= k < n implies call_ensures(
        center,
        (b[2 * k + leg],),
        #[trigger] x.push(y)[k],
    ) by {
        if k < n - 1 {
            assert(x.push(y)[k] == x[k] && b[2 * k + leg] == a[2 * k + leg]);
        }
    }
}

proof fn lemma_high_passed<S, H: Fn(S, S, S) -> S>(
    highpass: H,
    silence: S,
    x: Seq<S>,
    y: Seq<S>,
    a: S,
    b: S,
)
    requires
        high_passed(highpass, silence, x, y),
        call_ensures(highpass, (a, last_or(silence, x), last_or(silence, y)), b),
    ensures
        high_passed(highpass, silence, x.push(a), y.push(b)),
{
    reveal(high_passed);
    let (u, v) = (x.push(a), y.push(b));
    assert forall|k: int| 0 <= k < v.len() implies call_ensures(
        highpass,
        (
            u[k],
            if k == 0 {
                silence
            } else {
                u[k - 1]
            },
            if k == 0 {
                silence
            } else {
                v[k - 1]
            },
        ),
        #[trigger] v[k],
    ) by {
        if k < y.len() {
            assert(v[k] == y[k]);
        }
    }
}

proof fn lemma_summed<S, P: Fn(S, S) -> S>(
    sum: P,
    zero: S,
    period: int,
    x: Seq<S>,
    s: Seq<S>,
    a: S,
    b: S,
)
    requires
        period > 0,
        summed(sum, zero, period, x, s),
        call_ensures(
            sum,
            (
                if x.len() as int % period == 0 {
                    zero
                } else {
                    s.last()
                },
                a,
            ),
            b,
        ),
    ensures
        summed(sum, zero, period, x.push(a), s.push(b)),
{
    reveal(summed);
    let (u, v) = (x.push(a), s.push(b));
    vstd::arithmetic::div_mod::lemma_small_mod(0, period as nat);
    assert forall|k: int| 0 <= k < v.len() implies call_ensures(
        sum,
        (
            if k % period == 0 {
                zero
            } else {
                v[k - 1]
            },
            u[k],
        ),
        #[trigger] v[k],
    ) by {
        if k < s.len() {
            assert(v[k] == s[k]);
            if k > 0 {
                assert(v[k - 1] == s[k - 1]);
            }
        }
    }
}

proof fn lemma_meant_same<S, M: Fn(S) -> S>(mean: M, period: int, s: Seq<S>, m: Seq<S>, a: S)
    requires
        period == 10 || period == 5,
        meant(mean, period, s, m),
        (s.len() as int + 1) % period != 0,
    ensures
        meant(mean, period, s.push(a), m),
{
    reveal(meant);
    let t = s.push(a);
    assert(t.len() as int / period == s.len() as int / period);
    assert forall|j: int| 0 <= j < m.len() implies call_ensures(
        mean,
        (t[period * j + period - 1],),
        #[trigger] m[j],
    ) by {
        assert(period * j + period - 1 < s.len());
        assert(t[period * j + period - 1] == s[period * j + period - 1]);
    }
}

proof fn lemma_meant_more<S, M: Fn(S) -> S>(
    mean: M,
    period: int,
    s: Seq<S>,
    m: Seq<S>,
    a: S,
    b: S,
)
    requires
        period == 10 || period == 5,
        meant(mean, period, s, m),
        (s.len() as int + 1) % period == 0,
        call_ensures(mean, (a,), b),
    ensures
        meant(mean, period, s.push(a), m.push(b)),
{
    reveal(meant);
    let t = s.push(a);
    assert(t.len() as int / period == s.len() as int / period + 1);
    assert forall|j: int| 0 <= j < m.len() + 1 implies call_ensures(
        mean,
        (t[period * j + period - 1],),
        #[trigger] m.push(b)[j],
    ) by {
        if j < m.len() {
            assert(period * j + period - 1 < s.len());
            assert(t[period * j + period - 1] == s[period * j + period - 1]);
            assert(m.push(b)[j] == m[j]);
        } else {
            assert(period * j + period - 1 == s.len());
        }
    }
}

proof fn lemma_discriminated<S, A: Fn(S, S, S, S) -> S>(
    angle: A,
    silence: S,
    i: Seq<S>,
    q: Seq<S>,
    v: Seq<S>,
    a: S,
    b: S,
    c: S,
)
    requires
        discriminated(angle, silence, i, q, v),
        call_ensures(angle, (a, b, last_or(silence, i), last_or(silence, q)), c),
    ensures
        discriminated(angle, silence, i.push(a), q.push(b), v.push(c)),
{
    reveal(discriminated);
    let (x, y, z) = (i.push(a), q.push(b), v.push(c));
    assert forall|j: int| 0 <= j < z.len() implies call_ensures(
        angle,
        (
            x[j],
            y[j],
            if j == 0 {
                silence
            } else {
                x[j - 1]
            },
            if j == 0 {
                silence
            } else {
                y[j - 1]
            },
        ),
        #[trigger] z[j],
    ) by {
        if j < v.len() {
            assert(z[j] == v[j]);
        }
    }
}

proof fn lemma_eased<S, E: Fn(S, S) -> S>(
    pole: E,
    silence: S,
    v: Seq<S>,
    e: Seq<S>,
    a: S,
    b: S,
)
    requires
        eased(pole, silence, v, e),
        call_ensures(pole, (a, last_or(silence, e)), b),
    ensures
        eased(pole, silence, v.push(a), e.push(b)),
{
    reveal(eased);
    let (x, y) = (v.push(a), e.push(b));
    assert forall|j: int| 0 <= j < y.len() implies call_ensures(
        pole,
        (
            x[j],
            if j == 0 {
                silence
            } else {
                y[j - 1]
            },
        ),
        #[trigger] y[j],
    ) by {
        if j < e.len() {
            assert(y[j] == e[j]);
        }
    }
}

/// The chain over a whole stream. Whatever the transfers, from silence on: the bytes
/// are centred and high-passed; the means of pairs `10j` to `10j + 9` are
/// discriminated, each against the whole mean before it, both legs, silence standing
/// before the first; what comes of that is de-emphasized, and the means of five are
/// heard. One pair in fifty puts out a sample, and it is the next one.
pub proof fn receiver_demodulates_the_stream<S, B, H, P, M, A, E, V>(
    d: Detector<B, H, P, M, A, E, V>,
    bytes: Seq<u8>,
    states: Seq<ReceiverView<S>>,
    outs: Seq<Option<S>>,
    silence: S,
) -> (t: Signals<S>) where
    B: Fn(u8) -> S,
    H: Fn(S, S, S) -> S,
    P: Fn(S, S) -> S,
    M: Fn(S) -> S,
    A: Fn(S, S, S, S) -> S,
    E: Fn(S, S) -> S,
    V: Fn(S) -> S,

    requires
        d.runs(bytes, states, outs),
        states[0] == silent(silence),
    ensures
        d.demodulates(bytes, silence, t),
        outs.len() == bytes.len() / 2,
        forall|k: int|
            0 <= k < outs.len() ==> #[trigger] outs[k] == if (k + 1) % 50 == 0 {
                Some(t.out[k / 50])
            } else {
                None
            },
{
    reveal(centred);
    let n = bytes.len() as int / 2;
    let t = lemma_pairs(d, bytes, states, outs, silence, n);
    let even = bytes.take(2 * n);
    assert forall|k: int| 0 <= k < n implies call_ensures(
        d.center,
        (bytes[2 * k + 0],),
        #[trigger] t.x_i[k],
    ) by {
        assert(even[2 * k + 0] == bytes[2 * k + 0]);
    }
    assert forall|k: int| 0 <= k < n implies call_ensures(
        d.center,
        (bytes[2 * k + 1],),
        #[trigger] t.x_q[k],
    ) by {
        assert(even[2 * k + 1] == bytes[2 * k + 1]);
    }
    t
}

/// The same of the first `n` pairs.
proof fn lemma_pairs<S, B, H, P, M, A, E, V>(
    d: Detector<B, H, P, M, A, E, V>,
    bytes: Seq<u8>,
    states: Seq<ReceiverView<S>>,
    outs: Seq<Option<S>>,
    silence: S,
    n: int,
) -> (t: Signals<S>) where
    B: Fn(u8) -> S,
    H: Fn(S, S, S) -> S,
    P: Fn(S, S) -> S,
    M: Fn(S) -> S,
    A: Fn(S, S, S, S) -> S,
    E: Fn(S, S) -> S,
    V: Fn(S) -> S,

    requires
        d.runs(bytes, states, outs),
        states[0] == silent(silence),
        0 <= n <= bytes.len() as int / 2,
    ensures
        d.demodulates(bytes.take(2 * n), silence, t),
        state_behind(silence, t, states[n]),
        forall|k: int|
            0 <= k < n ==> #[trigger] outs[k] == if (k + 1) % 50 == 0 {
                Some(t.out[k / 50])
            } else {
                None
            },
    decreases n,
{
    if n == 0 {
        reveal(centred);
        reveal(high_passed);
        reveal(summed);
        reveal(meant);
        reveal(discriminated);
        reveal(eased);
        Signals {
            x_i: Seq::empty(),
            x_q: Seq::empty(),
            h_i: Seq::empty(),
            h_q: Seq::empty(),
            s_i: Seq::empty(),
            s_q: Seq::empty(),
            m_i: Seq::empty(),
            m_q: Seq::empty(),
            v: Seq::empty(),
            e: Seq::empty(),
            s: Seq::empty(),
            out: Seq::empty(),
        }
    } else {
        let t = lemma_pairs(d, bytes, states, outs, silence, n - 1);
        let a = states[n - 1];
        let b = states[n];
        assert(outs[n - 1] == outs[n - 1]);
        assert(d.steps(
            a,
            bytes[2 * (n - 1)],
            bytes[2 * (n - 1) + 1],
            states[n - 1 + 1],
            outs[n - 1],
        ));
        lemma_one_pair(d, bytes, a, b, outs, silence, n, t)
    }
}

/// How long the signals are.
pub proof fn lemma_lengths<S, B, H, P, M, A, E, V>(
    d: Detector<B, H, P, M, A, E, V>,
    bytes: Seq<u8>,
    silence: S,
    t: Signals<S>,
) where
    B: Fn(u8) -> S,
    H: Fn(S, S, S) -> S,
    P: Fn(S, S) -> S,
    M: Fn(S) -> S,
    A: Fn(S, S, S, S) -> S,
    E: Fn(S, S) -> S,
    V: Fn(S) -> S,

    requires
        d.demodulates(bytes, silence, t),
    ensures
        ({
            let n = bytes.len() as int / 2;
            &&& t.x_i.len() == n && t.x_q.len() == n
            &&& t.h_i.len() == n && t.h_q.len() == n
            &&& t.s_i.len() == n && t.s_q.len() == n
            &&& t.m_i.len() == n / 10 && t.m_q.len() == n / 10
            &&& t.v.len() == n / 10 && t.e.len() == n / 10 && t.s.len() == n / 10
            &&& t.out.len() == (n / 10) / 5
        }),
{
    reveal(centred);
    reveal(high_passed);
    reveal(summed);
    reveal(meant);
    reveal(discriminated);
    reveal(eased);
}

/// One pair more.
proof fn lemma_one_pair<S, B, H, P, M, A, E, V>(
    d: Detector<B, H, P, M, A, E, V>,
    bytes: Seq<u8>,
    a: ReceiverView<S>,
    b: ReceiverView<S>,
    outs: Seq<Option<S>>,
    silence: S,
    n: int,
    t: Signals<S>,
) -> (r: Signals<S>) where
    B: Fn(u8) -> S,
    H: Fn(S, S, S) -> S,
    P: Fn(S, S) -> S,
    M: Fn(S) -> S,
    A: Fn(S, S, S, S) -> S,
    E: Fn(S, S) -> S,
    V: Fn(S) -> S,

    requires
        1 <= n <= bytes.len() as int / 2,
        n <= outs.len(),
        d.demodulates(bytes.take(2 * (n - 1)), silence, t),
        state_behind(silence, t, a),
        d.steps(a, bytes[2 * (n - 1)], bytes[2 * (n - 1) + 1], b, outs[n - 1]),
        forall|k: int|
            0 <= k < n - 1 ==> #[trigger] outs[k] == if (k + 1) % 50 == 0 {
                Some(t.out[k / 50])
            } else {
                None
            },
    ensures
        d.demodulates(bytes.take(2 * n), silence, r),
        state_behind(silence, r, b),
        forall|k: int|
            0 <= k < n ==> #[trigger] outs[k] == if (k + 1) % 50 == 0 {
                Some(r.out[k / 50])
            } else {
                None
            },
{
    lemma_lengths(d, bytes.take(2 * (n - 1)), silence, t);
    let j = t.e.len() as int;
    assert(j == (n - 1) / 10);
    lemma_centred(d.center, bytes, n, 0, t.x_i, b.high_i.0);
    lemma_centred(d.center, bytes, n, 1, t.x_q, b.high_q.0);
    lemma_high_passed(d.highpass, silence, t.x_i, t.h_i, b.high_i.0, b.high_i.1);
    lemma_high_passed(d.highpass, silence, t.x_q, t.h_q, b.high_q.0, b.high_q.1);
    let x_i = t.x_i.push(b.high_i.0);
    let x_q = t.x_q.push(b.high_q.0);
    let h_i = t.h_i.push(b.high_i.1);
    let h_q = t.h_q.push(b.high_q.1);
    if n % 10 != 0 {
        let s_i = t.s_i.push(b.decim.i_acc);
        let s_q = t.s_q.push(b.decim.q_acc);
        lemma_summed(d.sum, silence, 10, t.h_i, t.s_i, b.high_i.1, b.decim.i_acc);
        lemma_summed(d.sum, silence, 10, t.h_q, t.s_q, b.high_q.1, b.decim.q_acc);
        lemma_meant_same(d.mean, 10, t.s_i, t.m_i, b.decim.i_acc);
        lemma_meant_same(d.mean, 10, t.s_q, t.m_q, b.decim.q_acc);
        assert(n % 50 != 0);
        Signals { x_i, x_q, h_i, h_q, s_i, s_q, ..t }
    } else {
        assert(averaged(d.sum, d.mean, a.decim.i_acc, b.high_i.1, b.prev.0));
        assert(averaged(d.sum, d.mean, a.decim.q_acc, b.high_q.1, b.prev.1));
        let total_i = choose|total: S|
            #[trigger] call_ensures(d.sum, (a.decim.i_acc, b.high_i.1), total) && call_ensures(
                d.mean,
                (total,),
                b.prev.0,
            );
        let total_q = choose|total: S|
            #[trigger] call_ensures(d.sum, (a.decim.q_acc, b.high_q.1), total) && call_ensures(
                d.mean,
                (total,),
                b.prev.1,
            );
        let s_i = t.s_i.push(total_i);
        let s_q = t.s_q.push(total_q);
        lemma_summed(d.sum, silence, 10, t.h_i, t.s_i, b.high_i.1, total_i);
        lemma_summed(d.sum, silence, 10, t.h_q, t.s_q, b.high_q.1, total_q);
        lemma_meant_more(d.mean, 10, t.s_i, t.m_i, total_i, b.prev.0);
        lemma_meant_more(d.mean, 10, t.s_q, t.m_q, total_q, b.prev.1);
        let m_i = t.m_i.push(b.prev.0);
        let m_q = t.m_q.push(b.prev.1);
        let demod = choose|demod: S|
            {
                &&& #[trigger] call_ensures(
                    d.angle,
                    (b.prev.0, b.prev.1, a.prev.0, a.prev.1),
                    demod,
                )
                &&& call_ensures(d.pole, (demod, a.last_out), b.last_out)
            };
        lemma_discriminated(
            d.angle,
            silence,
            t.m_i,
            t.m_q,
            t.v,
            b.prev.0,
            b.prev.1,
            demod,
        );
        lemma_eased(d.pole, silence, t.v, t.e, demod, b.last_out);
        let v = t.v.push(demod);
        let e = t.e.push(b.last_out);
        assert(n == 10 * (j + 1));
        if (j + 1) % 5 != 0 {
            lemma_summed(d.sum, silence, 5, t.e, t.s, b.last_out, b.decim.post_acc);
            lemma_meant_same(d.heard, 5, t.s, t.out, b.decim.post_acc);
            assert(n % 50 != 0);
            Signals {
                x_i,
                x_q,
                h_i,
                h_q,
                s_i,
                s_q,
                m_i,
                m_q,
                v,
                e,
                s: t.s.push(b.decim.post_acc),
                ..t
            }
        } else {
            let x = outs[n - 1]->0;
            assert(averaged(d.sum, d.heard, a.decim.post_acc, b.last_out, x));
            let total = choose|total: S|
                #[trigger] call_ensures(d.sum, (a.decim.post_acc, b.last_out), total)
                    && call_ensures(d.heard, (total,), x);
            lemma_summed(d.sum, silence, 5, t.e, t.s, b.last_out, total);
            lemma_meant_more(d.heard, 5, t.s, t.out, total, x);
            let out = t.out.push(x);
            assert(n % 50 == 0);
            assert((n - 1) / 50 == t.out.len());
            assert forall|k: int| 0 <= k < n implies #[trigger] outs[k] == if (k + 1) % 50 == 0 {
                Some(out[k / 50])
            } else {
                None
            } by {
                if k < n - 1 && (k + 1) % 50 == 0 {
                    assert(k / 50 < t.out.len());
                    assert(out[k / 50] == t.out[k / 50]);
                }
            }
            Signals {
                x_i,
                x_q,
                h_i,
                h_q,
                s_i,
                s_q,
                m_i,
                m_q,
                v,
                e,
                s: t.s.push(total),
                out,
            }
        }
    }
}

} // verus!
