//! Feeding the speaker: ring blocks on one side, frames of whatever size the
//! audio device asks for on the other.

pub mod calls;
pub mod order;

use vstd::prelude::*;

use crate::source::AUDIO_DECIM;
use crate::spmc::model::RingView;
use crate::spmc::{Ring, RingConsumer};

verus! {

/// The rates the device runs at, and the feed to it.
pub struct Speaker<T: Copy + Default, const M: usize> {
    /// The rate the dongle has to sample at, so that decimation is an exact
    /// integer.
    pub rtl_rate: u32,
    pub audio_rate: u32,
    pub feed: Feed<T, M>,
}

impl<T: Copy + Default, const M: usize> Speaker<T, M> {
    /// A speaker at the rate the device reports, with nothing played yet.
    pub fn new(audio_rate: u32, silence: T) -> (s: Self)
        requires
            audio_rate * AUDIO_DECIM <= u32::MAX,
        ensures
            s.audio_rate == audio_rate,
            s.rtl_rate == audio_rate * AUDIO_DECIM,
            s.feed.wf(),
            s.feed@.pos == M,
            !s.feed@.started,
            s.feed@.underruns == 0,
            s.feed@.silence == silence,
    {
        Speaker { rtl_rate: audio_rate * AUDIO_DECIM, audio_rate, feed: Feed::new(silence) }
    }
}

/// A staging copy of one ring block. The device asks for an arbitrary number of
/// frames while the ring hands out blocks, so the remainder has to survive
/// between calls.
pub struct Feed<T: Copy + Default, const M: usize> {
    staging: [T; M],
    pos: usize,
    /// A block has been played. The device asks for frames before the radio has
    /// produced any; an underrun is the ring running dry after it has been fed.
    started: bool,
    underruns: u64,
    silence: T,
}

/// The state of a [`Feed`].
pub struct FeedView<T> {
    pub staging: Seq<T>,
    pub pos: int,
    pub started: bool,
    pub underruns: int,
    pub silence: T,
}

impl<T: Copy + Default, const M: usize> View for Feed<T, M> {
    type V = FeedView<T>;

    closed spec fn view(&self) -> FeedView<T> {
        FeedView {
            staging: self.staging@,
            pos: self.pos as int,
            started: self.started,
            underruns: self.underruns as int,
            silence: self.silence,
        }
    }
}

/// The state of the feed and of the ring after one frame, and the sample the
/// frame plays; nothing where the ring was empty.
pub open spec fn next_frame<T>(f: FeedView<T>, ring: RingView<T>, c: int) -> (
    FeedView<T>,
    RingView<T>,
    Option<T>,
) {
    if f.pos < f.staging.len() {
        (FeedView { pos: f.pos + 1, ..f }, ring, Some(f.staging[f.pos]))
    } else {
        match ring.claim(c) {
            Some(seq) => {
                let block = ring.block(seq);
                (
                    FeedView { staging: block, pos: 1, started: true, ..f },
                    ring.read(c),
                    Some(block[0]),
                )
            },
            None => (
                FeedView {
                    underruns: if f.started {
                        (f.underruns + 1) % 0x1_0000_0000_0000_0000
                    } else {
                        f.underruns
                    },
                    ..f
                },
                ring,
                None,
            ),
        }
    }
}

/// The state of the feed and of the ring after `k` frames.
pub open spec fn after_frames<T>(f: FeedView<T>, ring: RingView<T>, c: int, k: nat) -> (
    FeedView<T>,
    RingView<T>,
)
    decreases k,
{
    if k == 0 {
        (f, ring)
    } else {
        let (g, r) = after_frames(f, ring, c, (k - 1) as nat);
        let (h, s, _) = next_frame(g, r, c);
        (h, s)
    }
}

/// The sample that frame `k` plays.
pub open spec fn frame<T>(f: FeedView<T>, ring: RingView<T>, c: int, k: nat) -> Option<T> {
    let (g, r) = after_frames(f, ring, c, k);
    next_frame(g, r, c).2
}

/// `out` is what playing a frame's sample may give: silence where there is none,
/// otherwise the sample scaled.
pub open spec fn sounds<T, G: Fn(T) -> T>(
    scale: G,
    silence: T,
    sample: Option<T>,
    out: T,
) -> bool {
    match sample {
        Some(x) => call_ensures(scale, (x,), out),
        None => out == silence,
    }
}

/// The frame that position `k` belongs to.
pub open spec fn frame_of(k: int, channels: int) -> int {
    k / channels
}

/// Every channel of a frame carries that frame's value.
pub open spec fn spread<T>(data: Seq<T>, channels: int, outs: Seq<T>) -> bool {
    forall|k: int| 0 <= k < data.len() ==> #[trigger] data[k] == outs[frame_of(k, channels)]
}

/// So far, every channel carries its frame's value.
spec fn spread_to<T>(data: Seq<T>, at: int, channels: int, outs: Seq<T>) -> bool {
    &&& forall|k: int| 0 <= k < at ==> 0 <= #[trigger] frame_of(k, channels) < outs.len()
    &&& forall|k: int| 0 <= k < at ==> #[trigger] data[k] == outs[frame_of(k, channels)]
}

/// One frame more changes nothing for those before.
proof fn lemma_spread_more<T>(data: Seq<T>, at: int, channels: int, outs: Seq<T>, x: T)
    requires
        spread_to(data, at, channels, outs),
    ensures
        spread_to(data, at, channels, outs.push(x)),
{
    assert forall|k: int| 0 <= k < at implies #[trigger] data[k] == outs.push(x)[frame_of(
        k,
        channels,
    )] by {
        assert(0 <= frame_of(k, channels) < outs.len());
    }
}

/// One channel more.
proof fn lemma_spread_next<T>(data: Seq<T>, at: int, channels: int, outs: Seq<T>)
    requires
        spread_to(data, at, channels, outs),
        0 <= at < data.len(),
        frame_of(at, channels) == outs.len() - 1,
        outs.len() > 0,
    ensures
        spread_to(data.update(at, outs.last()), at + 1, channels, outs),
{
    let after = data.update(at, outs.last());
    assert forall|k: int| 0 <= k < at + 1 implies #[trigger] after[k] == outs[frame_of(
        k,
        channels,
    )] by {
        if k < at {
            assert(data[k] == outs[frame_of(k, channels)]);
        }
    }
}

impl<T: Copy + Default, const M: usize> Feed<T, M> {
    /// The position lies within the block.
    pub open spec fn wf(&self) -> bool {
        &&& self@.staging.len() == M
        &&& 0 <= self@.pos <= M
        &&& 0 <= self@.underruns <= u64::MAX
    }

    /// A feed that takes a block before it plays.
    pub fn new(silence: T) -> (f: Self)
        ensures
            f.wf(),
            f@.pos == M,
            !f@.started,
            f@.underruns == 0,
            f@.silence == silence,
    {
        Feed { staging: [silence; M], pos: M, started: false, underruns: 0, silence }
    }

    /// How often the ring was empty when a frame was due.
    pub fn underruns(&self) -> (n: u64)
        ensures
            n == self@.underruns,
    {
        self.underruns
    }

    /// The sample the next frame plays. An empty ring is a frame of silence, and
    /// the next frame tries again, so that a block landing in between is picked
    /// up at once.
    pub fn next<const N: usize>(
        &mut self,
        consumer: &RingConsumer,
        ring: &mut Ring<T, N, M>,
    ) -> (sample: Option<T>)
        requires
            old(self).wf(),
            M > 0,
            old(ring).wf(),
            consumer@ < old(ring)@.cursors.len(),
        ensures
            final(self).wf(),
            final(ring).wf(),
            final(ring)@.cursors.len() == old(ring)@.cursors.len(),
            (final(self)@, final(ring)@, sample) == next_frame(
                old(self)@,
                old(ring)@,
                consumer@ as int,
            ),
    {
        if self.pos == M {
            let mut block: [T; M] = [self.silence; M];
            if take(consumer, ring, &mut block) {
                self.staging = block;
                self.pos = 0;
                self.started = true;
            } else {
                if self.started {
                    self.underruns = self.underruns.wrapping_add(1);
                }
                return None;
            }
        }
        let s = self.staging[self.pos];
        self.pos += 1;
        Some(s)
    }

    /// Fill what the device asks for: each frame has one sample for every
    /// channel, the same in all of them.
    pub fn fill<const N: usize, G: Fn(T) -> T>(
        &mut self,
        data: &mut [T],
        channels: usize,
        scale: G,
        consumer: &RingConsumer,
        ring: &mut Ring<T, N, M>,
    )
        requires
            old(self).wf(),
            M > 0,
            channels > 0,
            old(ring).wf(),
            consumer@ < old(ring)@.cursors.len(),
            forall|x: T| #[trigger] call_requires(scale, (x,)),
        ensures
            final(self).wf(),
            final(ring).wf(),
            final(data)@.len() == old(data)@.len(),
            (final(self)@, final(ring)@) == after_frames(
                old(self)@,
                old(ring)@,
                consumer@ as int,
                ((old(data)@.len() + channels - 1) / channels as int) as nat,
            ),
            exists|outs: Seq<T>|
                {
                    &&& #[trigger] spread(final(data)@, channels as int, outs)
                    &&& outs.len() == (old(data)@.len() + channels - 1) / channels as int
                    &&& forall|t: int|
                        0 <= t < outs.len() ==> sounds(
                            scale,
                            old(self)@.silence,
                            frame(old(self)@, old(ring)@, consumer@ as int, t as nat),
                            #[trigger] outs[t],
                        )
                },
    {
        let ghost f = self@;
        let ghost r = ring@;
        let ghost c = consumer@ as int;
        let silence = self.silence;
        let len: usize = data.len();
        let mut at: usize = 0;
        let ghost mut frames: nat = 0;
        let ghost mut outs: Seq<T> = Seq::empty();
        while at < len
            invariant
                at <= len,
                len == data@.len(),
                data@.len() == old(data)@.len(),
                self.wf(),
                ring.wf(),
                M > 0,
                channels > 0,
                c == consumer@,
                c < ring@.cursors.len(),
                (self@, ring@) == after_frames(f, r, c, frames),
                self@.silence == silence,
                f.silence == silence,
                at == frames * channels || (at == len && len <= frames * channels && frames > 0
                    && (frames - 1) * channels < len),
                frames == 0 ==> at == 0,
                forall|x: T| #[trigger] call_requires(scale, (x,)),
                outs.len() == frames,
                forall|t: int|
                    0 <= t < frames ==> sounds(
                        scale,
                        silence,
                        frame(f, r, c, t as nat),
                        #[trigger] outs[t],
                    ),
                spread_to(data@, at as int, channels as int, outs),
            decreases len - at,
        {
            let ghost sample = frame(f, r, c, frames);
            let s = self.next(consumer, ring);
            assert(s == sample);
            let out = match s {
                Some(x) => scale(x),
                None => silence,
            };
            assert(sounds(scale, silence, sample, out));
            let end: usize = if channels < len - at {
                at + channels
            } else {
                len
            };
            let start: usize = at;
            let ghost more = outs.push(out);
            proof {
                assert forall|t: int| 0 <= t < frames + 1 implies sounds(
                    scale,
                    silence,
                    frame(f, r, c, t as nat),
                    #[trigger] more[t],
                ) by {
                    if t < frames {
                        assert(more[t] == outs[t]);
                    }
                }
                lemma_spread_more(data@, at as int, channels as int, outs, out);
            }
            while at < end
                invariant
                    start <= at <= end <= len,
                    start == frames * channels,
                    end <= start + channels,
                    channels > 0,
                    len == data@.len(),
                    data@.len() == old(data)@.len(),
                    outs.len() == frames,
                    more == outs.push(out),
                    spread_to(data@, at as int, channels as int, more),
                decreases end - at,
            {
                proof {
                    lemma_frame_of(at as int, channels as int, frames as int);
                }
                let ghost before = data@;
                data[at] = out;
                proof {
                    lemma_spread_next(before, at as int, channels as int, more);
                    assert(data@ =~= before.update(at as int, out));
                }
                at += 1;
            }
            proof {
                assert((frames + 1) * channels == frames * channels + channels)
                    by (nonlinear_arith);
                frames = frames + 1;
                outs = more;
            }
        }
        proof {
            assert((frames - 1) * channels == frames * channels - channels) by (nonlinear_arith);
            lemma_frames(len as int, channels as int, frames as int);
            assert(spread(data@, channels as int, outs));
        }
    }
}

/// Take the next block out of the ring; false where there is none.
fn take<T: Copy + Default, const N: usize, const M: usize>(
    consumer: &RingConsumer,
    ring: &mut Ring<T, N, M>,
    block: &mut [T; M],
) -> (ok: bool)
    requires
        old(ring).wf(),
        consumer@ < old(ring)@.cursors.len(),
    ensures
        final(ring).wf(),
        final(ring)@ == old(ring)@.read(consumer@ as int),
        ok == (old(ring)@.claim(consumer@ as int) is Some),
        old(ring)@.claim(consumer@ as int) matches Some(seq) ==> final(block)@ == old(
            ring,
        )@.block(seq),
        !ok ==> final(block)@ == old(block)@,
{
    consumer.read_into(ring, block).is_ok()
}

/// Which frame a sample belongs to.
proof fn lemma_frame_of(at: int, channels: int, frames: int)
    requires
        channels > 0,
        frames >= 0,
        frames * channels <= at < frames * channels + channels,
    ensures
        at / channels == frames,
{
    assert(at == channels * frames + (at - frames * channels)) by (nonlinear_arith);
    vstd::arithmetic::div_mod::lemma_fundamental_div_mod_converse(
        at,
        channels,
        frames,
        at - frames * channels,
    );
}

/// How many frames it takes.
proof fn lemma_frames(len: int, channels: int, frames: int)
    requires
        channels > 0,
        frames >= 0,
        len >= 0,
        len <= frames * channels,
        frames == 0 ==> len == 0,
        frames > 0 ==> (frames - 1) * channels < len,
    ensures
        (len + channels - 1) / channels == frames,
{
    let m = len + channels - 1;
    if frames == 0 {
        vstd::arithmetic::div_mod::lemma_fundamental_div_mod_converse(m, channels, 0, m);
    } else {
        let rest = m - frames * channels;
        assert((frames - 1) * channels == frames * channels - channels) by (nonlinear_arith);
        assert(m == channels * frames + rest) by (nonlinear_arith)
            requires
                rest == m - frames * channels,
        ;
        vstd::arithmetic::div_mod::lemma_fundamental_div_mod_converse(m, channels, frames, rest);
    }
}

/// Silence before the first block is no underrun.
pub proof fn waiting_is_no_underrun<T>(f: FeedView<T>, ring: RingView<T>, c: int)
    requires
        !f.started,
    ensures
        next_frame(f, ring, c).0.underruns == f.underruns,
{
}

/// The samples of one block are played in order, each once: from a fresh block
/// on, the next frames play the rest of it without touching the ring.
pub proof fn block_is_played_in_order<T>(f: FeedView<T>, ring: RingView<T>, c: int, k: nat)
    requires
        0 <= f.pos,
        f.pos + k <= f.staging.len(),
    ensures
        after_frames(f, ring, c, k) == (FeedView { pos: f.pos + k, ..f }, ring),
        f.pos + k < f.staging.len() ==> frame(f, ring, c, k) == Some(f.staging[f.pos + k]),
    decreases k,
{
    if k > 0 {
        block_is_played_in_order(f, ring, c, (k - 1) as nat);
    }
}

} // verus!
