//! The detectors of the compact radio, one sample at a time.
//!
//! The arithmetic is handed in by the caller; here is what meets what, and what
//! is carried from one sample to the next.

use vstd::prelude::*;

verus! {

/// A high-pass filter for the energy leaked at the centre.
pub struct DcBlocker<S: Copy> {
    pub x_prev: S,
    pub y_prev: S,
}

impl<S: Copy> DcBlocker<S> {
    /// A filter behind silence.
    pub fn new(silence: S) -> (b: Self)
        ensures
            b.x_prev == silence,
            b.y_prev == silence,
    {
        DcBlocker { x_prev: silence, y_prev: silence }
    }

    /// Filter one sample, given it, the sample before and the output before.
    pub fn process<H: Fn(S, S, S) -> S>(&mut self, x: S, highpass: &H) -> (y: S)
        requires
            forall|a: S, b: S, c: S| #[trigger] call_requires(*highpass, (a, b, c)),
        ensures
            call_ensures(*highpass, (x, old(self).x_prev, old(self).y_prev), y),
            final(self).x_prev == x,
            final(self).y_prev == y,
    {
        let y = highpass(x, self.x_prev, self.y_prev);
        self.x_prev = x;
        self.y_prev = y;
        y
    }
}

/// That filter on I and on Q.
pub struct IqDcBlocker<S: Copy> {
    pub i_blocker: DcBlocker<S>,
    pub q_blocker: DcBlocker<S>,
}

impl<S: Copy> IqDcBlocker<S> {
    /// Filters behind silence.
    pub fn new(silence: S) -> (b: Self)
        ensures
            b.i_blocker.x_prev == silence,
            b.i_blocker.y_prev == silence,
            b.q_blocker.x_prev == silence,
            b.q_blocker.y_prev == silence,
    {
        IqDcBlocker { i_blocker: DcBlocker::new(silence), q_blocker: DcBlocker::new(silence) }
    }

    /// Filter one pair: each leg by itself.
    pub fn process<H: Fn(S, S, S) -> S>(&mut self, i: S, q: S, highpass: &H) -> (r: (S, S))
        requires
            forall|a: S, b: S, c: S| #[trigger] call_requires(*highpass, (a, b, c)),
        ensures
            call_ensures(
                *highpass,
                (i, old(self).i_blocker.x_prev, old(self).i_blocker.y_prev),
                r.0,
            ),
            call_ensures(
                *highpass,
                (q, old(self).q_blocker.x_prev, old(self).q_blocker.y_prev),
                r.1,
            ),
            final(self).i_blocker == (DcBlocker { x_prev: i, y_prev: r.0 }),
            final(self).q_blocker == (DcBlocker { x_prev: q, y_prev: r.1 }),
    {
        (self.i_blocker.process(i, highpass), self.q_blocker.process(q, highpass))
    }
}

/// The FM discriminator: every pair against the one before.
pub struct FmDiscriminator<S: Copy> {
    pub prev_i: S,
    pub prev_q: S,
}

impl<S: Copy> FmDiscriminator<S> {
    /// A discriminator behind silence.
    pub fn new(silence: S) -> (d: Self)
        ensures
            d == (FmDiscriminator { prev_i: silence, prev_q: silence }),
    {
        FmDiscriminator { prev_i: silence, prev_q: silence }
    }

    /// Demodulate one pair. `angle` takes it and the one before.
    pub fn process<A: Fn(S, S, S, S) -> S>(&mut self, i: S, q: S, angle: &A) -> (out: S)
        requires
            forall|a: S, b: S, c: S, d: S| #[trigger] call_requires(*angle, (a, b, c, d)),
        ensures
            call_ensures(*angle, (i, q, old(self).prev_i, old(self).prev_q), out),
            *final(self) == (FmDiscriminator { prev_i: i, prev_q: q }),
    {
        let out = angle(i, q, self.prev_i, self.prev_q);
        self.prev_i = i;
        self.prev_q = q;
        out
    }
}

/// The de-emphasis pole: every output from a sample and the output before.
pub struct Deemphasis<S: Copy> {
    pub state: S,
}

impl<S: Copy> Deemphasis<S> {
    /// A pole behind silence.
    pub fn new(silence: S) -> (d: Self)
        ensures
            d == (Deemphasis { state: silence }),
    {
        Deemphasis { state: silence }
    }

    /// Smooth one sample.
    pub fn process<E: Fn(S, S) -> S>(&mut self, x: S, pole: &E) -> (out: S)
        requires
            forall|a: S, b: S| #[trigger] call_requires(*pole, (a, b)),
        ensures
            call_ensures(*pole, (x, old(self).state), out),
            *final(self) == (Deemphasis { state: out }),
    {
        self.state = pole(x, self.state);
        self.state
    }
}

/// The AM envelope detector: how far the envelope is from a slowly tracked
/// carrier.
pub struct AmEnvelope<S: Copy> {
    pub carrier: S,
}

/// `out` and `next` are what the detector may make of a pair.
pub open spec fn enveloped<
    S,
    E: Fn(S, S) -> S,
    T: Fn(S, S) -> S,
    D: Fn(S, S) -> S,
>(envelope: E, track: T, depth: D, i: S, q: S, carrier: S, next: S, out: S) -> bool {
    exists|env: S|
        {
            &&& #[trigger] call_ensures(envelope, (i, q), env)
            &&& call_ensures(track, (env, carrier), next)
            &&& call_ensures(depth, (env, next), out)
        }
}

impl<S: Copy> AmEnvelope<S> {
    /// A detector without a carrier.
    pub fn new(silence: S) -> (d: Self)
        ensures
            d.carrier == silence,
    {
        AmEnvelope { carrier: silence }
    }

    /// Detect one pair: track the carrier first, and measure against it.
    pub fn process<E: Fn(S, S) -> S, T: Fn(S, S) -> S, D: Fn(S, S) -> S>(
        &mut self,
        i: S,
        q: S,
        envelope: &E,
        track: &T,
        depth: &D,
    ) -> (out: S)
        requires
            forall|a: S, b: S| #[trigger] call_requires(*envelope, (a, b)),
            forall|a: S, b: S| #[trigger] call_requires(*track, (a, b)),
            forall|a: S, b: S| #[trigger] call_requires(*depth, (a, b)),
        ensures
            enveloped(
                *envelope,
                *track,
                *depth,
                i,
                q,
                old(self).carrier,
                final(self).carrier,
                out,
            ),
    {
        let env = envelope(i, q);
        self.carrier = track(env, self.carrier);
        depth(env, self.carrier)
    }
}

} // verus!
