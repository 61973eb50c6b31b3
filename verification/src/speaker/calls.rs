//! What the speaker gets, frame by frame.

use vstd::prelude::*;

use crate::speaker::{after_frames, frame, frame_of, sounds, spread, Feed, Speaker};
use crate::spmc::calls::{next_seq, only_cursor};
use crate::spmc::{Ring, RingConsumer};

verus! {

/// A new speaker samples fifty times as fast as it plays, has played nothing and takes a
/// block before it does.
pub proof fn new_speaker_has_played_nothing<T: Copy + Default, const M: usize>(
    audio_rate: u32,
    silence: T,
    s: Speaker<T, M>,
    f: Feed<T, M>,
)
    requires
        call_ensures(Speaker::<T, M>::new, (audio_rate, silence), s),
        call_ensures(Feed::<T, M>::new, (silence,), f),
    ensures
        s.audio_rate == audio_rate,
        s.rtl_rate == 50 * audio_rate,
        s.feed@.pos == M,
        !s.feed@.started,
        s.feed@.underruns == 0,
        s.feed@.silence == silence,
        f@.pos == M,
        !f@.started,
        f@.underruns == 0,
        f@.silence == silence,
{
}

/// A frame plays the next sample of the block at hand. Behind its last it takes the next
/// block of the ring and plays the first sample of that; where there is none it is
/// silent, which counts as an underrun once a block has been played, and the next frame
/// tries again.
pub proof fn a_frame_plays_the_next_sample<T: Copy + Default, const N: usize, const M: usize>(
    f: &mut Feed<T, M>,
    c: &RingConsumer,
    ring: &mut Ring<T, N, M>,
    sample: Option<T>,
)
    requires
        N >= 2,
        old(f).wf(),
        M > 0,
        old(ring).wf(),
        c@ < old(ring)@.cursors.len(),
        call_ensures(Feed::<T, M>::next::<N>, (f, c, ring), sample),
    ensures
        ({
            let a = old(f)@;
            let b = final(f)@;
            let r = old(ring)@;
            let s = final(ring)@;
            let me = c@ as int;
            let seq = next_seq(r, N as int, me);
            let empty = r.cursors[me] >= r.head;
            &&& b.silence == a.silence
            &&& only_cursor(r, s, me)
            &&& a.pos < M ==> {
                &&& sample == Some(a.staging[a.pos])
                &&& b.pos == a.pos + 1
                &&& b.staging == a.staging
                &&& b.started == a.started
                &&& b.underruns == a.underruns
                &&& s.cursors[me] == r.cursors[me]
            }
            &&& a.pos == M && !empty ==> {
                &&& b.staging == r.slots[seq % N as int]
                &&& sample == Some(b.staging[0])
                &&& b.pos == 1
                &&& b.started
                &&& b.underruns == a.underruns
                &&& s.cursors[me] == seq + 1
            }
            &&& a.pos == M && empty ==> {
                &&& sample is None
                &&& b.pos == a.pos
                &&& b.staging == a.staging
                &&& b.started == a.started
                &&& !a.started ==> b.underruns == a.underruns
                &&& a.started && a.underruns < u64::MAX ==> b.underruns == a.underruns + 1
                &&& a.started && a.underruns == u64::MAX ==> b.underruns == 0
                &&& s.cursors[me] == r.cursors[me]
            }
        }),
{
}

/// What the device gets: position `k` belongs to frame `k / channels`, and every channel
/// of a frame has the same value, which is the frame's sample scaled, or silence.
/// A frame that is cut off at the end counts as one.
pub proof fn channels_of_a_frame_sound_alike<
    T: Copy + Default,
    G: Fn(T) -> T,
    const N: usize,
    const M: usize,
>(
    f: &mut Feed<T, M>,
    data: &mut [T],
    channels: usize,
    scale: G,
    c: &RingConsumer,
    ring: &mut Ring<T, N, M>,
    k: int,
)
    requires
        channels > 0,
        call_ensures(
            Feed::<T, M>::fill::<N, G>,
            (f, data, channels, scale, c, ring),
            (),
        ),
        0 <= k < old(data)@.len(),
    ensures
        final(data)@.len() == old(data)@.len(),
        ({
            let t = (k / channels as int) as nat;
            let sample = frame(old(f)@, old(ring)@, c@ as int, t);
            &&& sample matches Some(x) ==> call_ensures(scale, (x,), final(data)@[k])
            &&& sample is None ==> final(data)@[k] == old(f)@.silence
        }),
        exists|frames: nat|
            {
                &&& old(data)@.len() <= frames * channels < old(data)@.len() + channels
                &&& (final(f)@, final(ring)@) == #[trigger] after_frames(
                    old(f)@,
                    old(ring)@,
                    c@ as int,
                    frames,
                )
            },
{
    let n = old(data)@.len() as int;
    let ch = channels as int;
    let m = n + ch - 1;
    let frames = (m / ch) as nat;
    vstd::arithmetic::div_mod::lemma_fundamental_div_mod(m, ch);
    vstd::arithmetic::div_mod::lemma_div_pos_is_pos(m, ch);
    assert(ch * (m / ch) == frames * ch) by (nonlinear_arith)
        requires
            frames == m / ch,
    ;
    let outs = choose|outs: Seq<T>|
        {
            &&& #[trigger] spread(final(data)@, ch, outs)
            &&& outs.len() == m / ch
            &&& forall|t: int|
                0 <= t < outs.len() ==> sounds(
                    scale,
                    old(f)@.silence,
                    frame(old(f)@, old(ring)@, c@ as int, t as nat),
                    #[trigger] outs[t],
                )
        };
    let t = frame_of(k, ch);
    assert(final(data)@[k] == outs[t]);
    vstd::arithmetic::div_mod::lemma_fundamental_div_mod(k, ch);
    vstd::arithmetic::div_mod::lemma_div_pos_is_pos(k, ch);
    assert(t < m / ch) by (nonlinear_arith)
        requires
            t == k / ch,
            k == ch * (k / ch) + k % ch,
            0 <= k % ch,
            k < n,
            m == n + ch - 1,
            m == ch * (m / ch) + m % ch,
            m % ch < ch,
            ch > 0,
    ;
    assert(sounds(
        scale,
        old(f)@.silence,
        frame(old(f)@, old(ring)@, c@ as int, t as nat),
        outs[t],
    ));
}

/// The frames of one call follow one another: frame `k + 1` is the frame after frame `k`.
pub proof fn frames_follow_one_another<T>(
    f: crate::speaker::FeedView<T>,
    ring: crate::spmc::model::RingView<T>,
    c: int,
    k: nat,
)
    ensures
        after_frames(f, ring, c, 0) == (f, ring),
        after_frames(f, ring, c, k + 1) == ({
            let (g, r) = after_frames(f, ring, c, k);
            after_frames(g, r, c, 1)
        }),
        frame(f, ring, c, k) == ({
            let (g, r) = after_frames(f, ring, c, k);
            frame(g, r, c, 0)
        }),
        frame(f, ring, c, 0) == crate::speaker::next_frame(f, ring, c).2,
        after_frames(f, ring, c, 1).0 == crate::speaker::next_frame(f, ring, c).0,
        after_frames(f, ring, c, 1).1 == crate::speaker::next_frame(f, ring, c).1,
{
    let (g, r) = after_frames(f, ring, c, k);
    reveal_with_fuel(after_frames, 3);
    assert(after_frames(g, r, c, 1) == ({
        let (h, s, _) = crate::speaker::next_frame(g, r, c);
        (h, s)
    }));
}

/// The underruns are those counted.
pub proof fn underruns_are_told<T: Copy + Default, const M: usize>(f: &Feed<T, M>, n: u64)
    requires
        call_ensures(Feed::<T, M>::underruns, (f,), n),
    ensures
        n == f@.underruns,
{
}

} // verus!
