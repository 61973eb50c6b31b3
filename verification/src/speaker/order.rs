//! What is heard over any number of frames, while the radio goes on writing.

use vstd::prelude::*;

use crate::speaker::{next_frame, FeedView};
use crate::spmc::laws::claimed_block_is_intact;
use crate::spmc::model::{moved_on, RingView};

verus! {

/// A feed playing frame after frame: `feeds` and `rings` are the states before
/// each frame and after the last, and `played` is what each frame plays.
pub open spec fn is_play<T>(
    feeds: Seq<FeedView<T>>,
    rings: Seq<RingView<T>>,
    played: Seq<Option<T>>,
    c: int,
    n: nat,
    m: nat,
) -> bool {
    &&& feeds.len() == played.len() + 1
    &&& rings.len() == played.len() + 1
    &&& feeds[0].staging.len() == m
    &&& feeds[0].pos == m
    &&& !feeds[0].started
    &&& feeds[0].underruns == 0
    &&& forall|t: int|
        0 <= t < rings.len() ==> (#[trigger] rings[t]).wf(n, m) && 0 <= c < rings[t].cursors.len()
    &&& forall|t: int|
        0 <= t < played.len() ==> {
            let (f, r, s) = next_frame(feeds[t], rings[t], c);
            feeds[t + 1] == f && #[trigger] played[t] == s && moved_on(r, rings[t + 1], c)
        }
}

/// The samples that were played, in order.
pub open spec fn heard<T>(played: Seq<Option<T>>) -> Seq<T>
    decreases played.len(),
{
    if played.len() == 0 {
        Seq::empty()
    } else {
        match played.last() {
            Some(x) => heard(played.drop_last()).push(x),
            None => heard(played.drop_last()),
        }
    }
}

/// The sequence numbers of the blocks taken in the first `t` frames.
pub open spec fn blocks_taken<T>(
    feeds: Seq<FeedView<T>>,
    rings: Seq<RingView<T>>,
    c: int,
    t: int,
) -> Seq<nat>
    decreases t,
{
    if t <= 0 {
        Seq::empty()
    } else {
        let earlier = blocks_taken(feeds, rings, c, t - 1);
        match rings[t - 1].claim(c) {
            Some(seq) => if feeds[t - 1].pos < feeds[t - 1].staging.len() {
                earlier
            } else {
                earlier.push(seq)
            },
            None => earlier,
        }
    }
}

/// Published blocks, one behind the other.
pub open spec fn end_to_end<T>(published: Seq<Seq<T>>, seqs: Seq<nat>) -> Seq<T>
    decreases seqs.len(),
{
    if seqs.len() == 0 {
        Seq::empty()
    } else {
        end_to_end(published, seqs.drop_last()) + published[seqs.last() as int]
    }
}

/// What was published stays published.
proof fn lemma_end_to_end<T>(a: Seq<Seq<T>>, b: Seq<Seq<T>>, seqs: Seq<nat>)
    requires
        a.len() <= b.len(),
        forall|s: int| 0 <= s < a.len() ==> #[trigger] b[s] == a[s],
        forall|j: int| 0 <= j < seqs.len() ==> #[trigger] seqs[j] < a.len(),
    ensures
        end_to_end(a, seqs) == end_to_end(b, seqs),
    decreases seqs.len(),
{
    if seqs.len() > 0 {
        lemma_end_to_end(a, b, seqs.drop_last());
        let s = seqs[seqs.len() - 1] as int;
        assert(b[s] == a[s]);
    }
}

/// Over any series of frames the samples heard are those of the blocks the feed
/// took from the ring, whole and in order, each once, up to the rest of the last
/// block; and the blocks come in the order they were published, none twice.
pub proof fn samples_are_heard_in_order<T>(
    feeds: Seq<FeedView<T>>,
    rings: Seq<RingView<T>>,
    played: Seq<Option<T>>,
    c: int,
    n: nat,
    m: nat,
)
    requires
        n >= 2,
        m >= 1,
        is_play(feeds, rings, played, c, n, m),
    ensures
        ({
            let t = played.len() as int;
            let seqs = blocks_taken(feeds, rings, c, t);
            let feed = feeds[t];
            &&& feed.staging.len() == m
            &&& 0 <= feed.pos <= m
            &&& heard(played) + feed.staging.skip(feed.pos) == end_to_end(
                rings[t].published,
                seqs,
            )
            &&& forall|j: int| 0 <= j < seqs.len() ==> #[trigger] seqs[j] < rings[t].cursors[c]
            &&& forall|j: int| 0 <= j < seqs.len() ==> #[trigger] seqs[j] < rings[t].head
            &&& forall|j: int, k: int|
                0 <= j < k < seqs.len() ==> #[trigger] seqs[j] < #[trigger] seqs[k]
        }),
    decreases played.len(),
{
    let t = played.len() as int;
    if t == 0 {
        assert(feeds[0].staging.skip(m as int) =~= Seq::<T>::empty());
        assert(heard(played) + feeds[0].staging.skip(m as int) =~= Seq::<T>::empty());
    } else {
        let u = t - 1;
        let (fs, rs, ps) = (feeds.drop_last(), rings.drop_last(), played.drop_last());
        lemma_shorter(feeds, rings, played, c, n, m);
        samples_are_heard_in_order(fs, rs, ps, c, n, m);
        lemma_taken_before(feeds, rings, c, u);
        let before = blocks_taken(feeds, rings, c, u);
        assert(blocks_taken(fs, rs, c, u) == before);
        let (f, r) = (feeds[u], rings[u]);
        assert(fs[u] == f && rs[u] == r);
        let (g, s, x) = next_frame(f, r, c);
        assert(played[u] == x);
        assert(feeds[u + 1] == g);
        assert(moved_on(s, rings[u + 1], c));
        let seqs = blocks_taken(feeds, rings, c, t);
        claimed_block_is_intact(r, n, m, c);
        if f.pos < f.staging.len() {
            assert(seqs == before);
            assert(heard(played) + g.staging.skip(g.pos) =~= heard(ps) + f.staging.skip(f.pos));
        } else if let Some(seq) = r.claim(c) {
            assert(seqs == before.push(seq));
            assert(seqs.drop_last() =~= before);
            vstd::arithmetic::div_mod::lemma_mod_bound(seq as int, n as int);
            assert(f.staging.skip(f.pos) =~= Seq::<T>::empty());
            assert(heard(ps) =~= end_to_end(r.published, before));
            assert(heard(played) + g.staging.skip(g.pos) =~= heard(ps) + r.block(seq));
            assert(end_to_end(r.published, seqs) == heard(ps) + r.block(seq));
        } else {
            assert(seqs == before);
        }
        assert(r.published == s.published);
        lemma_end_to_end(r.published, rings[t].published, seqs);
        assert(rings[t].wf(n, m) && r.wf(n, m));
    }
}

/// A play without its last frame is one.
proof fn lemma_shorter<T>(
    feeds: Seq<FeedView<T>>,
    rings: Seq<RingView<T>>,
    played: Seq<Option<T>>,
    c: int,
    n: nat,
    m: nat,
)
    requires
        played.len() > 0,
        is_play(feeds, rings, played, c, n, m),
    ensures
        is_play(feeds.drop_last(), rings.drop_last(), played.drop_last(), c, n, m),
{
    let (fs, rs, ps) = (feeds.drop_last(), rings.drop_last(), played.drop_last());
    assert forall|t: int| 0 <= t < rs.len() implies (#[trigger] rs[t]).wf(n, m) && 0 <= c
        < rs[t].cursors.len() by {
        assert(rs[t] == rings[t]);
    }
    assert forall|t: int| 0 <= t < ps.len() implies {
        let (f, r, s) = next_frame(fs[t], rs[t], c);
        fs[t + 1] == f && #[trigger] ps[t] == s && moved_on(r, rs[t + 1], c)
    } by {
        assert(ps[t] == played[t]);
        assert(rs[t] == rings[t] && rs[t + 1] == rings[t + 1]);
    }
}

/// The blocks taken in some frames do not depend on later ones.
proof fn lemma_taken_before<T>(
    feeds: Seq<FeedView<T>>,
    rings: Seq<RingView<T>>,
    c: int,
    t: int,
)
    requires
        feeds.len() == rings.len(),
        t < feeds.len(),
    ensures
        blocks_taken(feeds.drop_last(), rings.drop_last(), c, t) == blocks_taken(
            feeds,
            rings,
            c,
            t,
        ),
    decreases t,
{
    if t > 0 {
        lemma_taken_before(feeds, rings, c, t - 1);
        assert(feeds.drop_last()[t - 1] == feeds[t - 1]);
        assert(rings.drop_last()[t - 1] == rings[t - 1]);
    }
}

/// How many frames were silent after something had been heard.
pub open spec fn gaps<T>(played: Seq<Option<T>>) -> nat
    decreases played.len(),
{
    if played.len() == 0 {
        0
    } else {
        gaps(played.drop_last()) + if played.last() is None && heard(played.drop_last()).len() > 0 {
            1nat
        } else {
            0nat
        }
    }
}

/// A silent frame is one for which the ring had no block, and it counts as an
/// underrun exactly if something had been heard before: waiting for the radio's
/// first block does not count.
pub proof fn underruns_are_gaps<T>(
    feeds: Seq<FeedView<T>>,
    rings: Seq<RingView<T>>,
    played: Seq<Option<T>>,
    c: int,
    n: nat,
    m: nat,
)
    requires
        m >= 1,
        is_play(feeds, rings, played, c, n, m),
    ensures
        feeds.last().underruns == gaps(played) % 0x1_0000_0000_0000_0000,
        feeds.last().started <==> heard(played).len() > 0,
        forall|t: int|
            0 <= t < played.len() ==> (#[trigger] played[t] is None ==> rings[t].claim(c) is None),
    decreases played.len(),
{
    if played.len() > 0 {
        let u = played.len() - 1;
        let (fs, rs, ps) = (feeds.drop_last(), rings.drop_last(), played.drop_last());
        lemma_shorter(feeds, rings, played, c, n, m);
        underruns_are_gaps(fs, rs, ps, c, n, m);
        let (g, s, x) = next_frame(feeds[u], rings[u], c);
        assert(played[u] == x);
        assert(feeds[u + 1] == g);
        assert(fs.last() == feeds[u]);
        if feeds[u].pos < feeds[u].staging.len() {
            lemma_staged_is_started(fs, rs, ps, c, n, m);
        }
        assert forall|t: int| 0 <= t < played.len() && #[trigger] played[t] is None implies rings[t].claim(
            c,
        ) is None by {
            if t < u {
                assert(ps[t] == played[t]);
                assert(rs[t] == rings[t]);
            }
        }
    }
}

/// A block is staged only once one has been played.
proof fn lemma_staged_is_started<T>(
    feeds: Seq<FeedView<T>>,
    rings: Seq<RingView<T>>,
    played: Seq<Option<T>>,
    c: int,
    n: nat,
    m: nat,
)
    requires
        is_play(feeds, rings, played, c, n, m),
    ensures
        feeds.last().pos < feeds.last().staging.len() ==> feeds.last().started,
    decreases played.len(),
{
    if played.len() > 0 {
        let u = played.len() - 1;
        lemma_shorter(feeds, rings, played, c, n, m);
        lemma_staged_is_started(
            feeds.drop_last(),
            rings.drop_last(),
            played.drop_last(),
            c,
            n,
            m,
        );
        let (g, s, x) = next_frame(feeds[u], rings[u], c);
        assert(played[u] == x);
        assert(feeds[u + 1] == g);
        assert(feeds.drop_last().last() == feeds[u]);
    }
}

} // verus!
