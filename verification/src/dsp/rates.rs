//! The resampler over any number of blocks.

use vstd::prelude::*;

use crate::dsp::{lemma_output_in_block, resampler_keeps_its_rate, ResamplerView};

verus! {

impl<S> ResamplerView<S> {
    /// The state after a series of blocks.
    pub open spec fn after_all(self, blocks: Seq<Seq<S>>) -> Self
        decreases blocks.len(),
    {
        if blocks.len() == 0 {
            self
        } else {
            self.after_all(blocks.drop_last()).after(blocks.last())
        }
    }

    /// How many outputs a series of blocks yields.
    pub open spec fn made(self, blocks: Seq<Seq<S>>) -> int
        decreases blocks.len(),
    {
        if blocks.len() == 0 {
            0
        } else {
            self.made(blocks.drop_last()) + self.after_all(blocks.drop_last()).outputs(
                blocks.last().len() as int,
            )
        }
    }
}

/// How many samples a series of blocks has.
pub open spec fn taken<S>(blocks: Seq<Seq<S>>) -> int
    decreases blocks.len(),
{
    if blocks.len() == 0 {
        0
    } else {
        taken(blocks.drop_last()) + blocks.last().len()
    }
}

/// After any number of blocks, whatever their sizes: the next output lies behind
/// the samples taken, and the last one among them.
proof fn lemma_counts<S>(r: ResamplerView<S>, blocks: Seq<Seq<S>>)
    requires
        r.wf(),
        r.decim > 0,
        r.phase == 0,
        r.offset == 0,
    ensures
        ({
            let now = r.after_all(blocks);
            let (made, t) = (r.made(blocks), taken(blocks));
            &&& now.wf()
            &&& now.interp == r.interp
            &&& now.decim == r.decim
            &&& made >= 0
            &&& t >= 0
            &&& now.phase == (made * r.decim) % r.interp
            &&& t + now.offset == (made * r.decim) / r.interp
            &&& t * r.interp <= made * r.decim
            &&& made > 0 ==> (made - 1) * r.decim < t * r.interp
        }),
    decreases blocks.len(),
{
    let (i, d) = (r.interp, r.decim);
    if blocks.len() == 0 {
        assert(0 * d == 0 && 0 * i == 0) by (nonlinear_arith);
        vstd::arithmetic::div_mod::lemma_small_mod(0, i as nat);
        vstd::arithmetic::div_mod::lemma_basic_div(0, i);
    } else {
        let earlier = blocks.drop_last();
        let input = blocks.last();
        lemma_counts(r, earlier);
        let before = r.after_all(earlier);
        let (m, t) = (r.made(earlier), taken(earlier));
        let c = before.outputs(input.len() as int);
        resampler_keeps_its_rate(before, input, m, t);
        let now = before.after(input);
        let made = m + c;
        let all = t + input.len();
        vstd::arithmetic::div_mod::lemma_fundamental_div_mod(made * d, i);
        assert(all * i <= made * d) by (nonlinear_arith)
            requires
                all <= (made * d) / i,
                made * d == i * ((made * d) / i) + (made * d) % i,
                0 <= (made * d) % i,
                i > 0,
        ;
        if c > 0 {
            lemma_output_in_block(before, input.len() as int, c - 1);
            assert(before.ticks(c - 1) % before.interp == ((m + (c - 1)) * d) % i);
            let last = (m + (c - 1)) * d;
            assert(t + before.position(c - 1) == last / i);
            vstd::arithmetic::div_mod::lemma_fundamental_div_mod(last, i);
            assert(last < all * i) by (nonlinear_arith)
                requires
                    last / i < all,
                    last == i * (last / i) + last % i,
                    last % i < i,
                    i > 0,
            ;
            assert((made - 1) * d == last);
        } else if made > 0 {
            assert(t * i <= all * i) by (nonlinear_arith)
                requires
                    t <= all,
                    i > 0,
            ;
        }
    }
}

/// The rate is exact: fed `L` samples in all, a fresh resampler has yielded
/// `ceil(L * interp / decim)` outputs in all, after every block and whatever the
/// sizes of the blocks.
pub proof fn resampler_makes_the_exact_count<S>(r: ResamplerView<S>, blocks: Seq<Seq<S>>)
    requires
        r.wf(),
        r.decim > 0,
        r.phase == 0,
        r.offset == 0,
    ensures
        r.made(blocks) == (taken(blocks) * r.interp + r.decim - 1) / r.decim,
{
    lemma_counts(r, blocks);
    let d = r.decim;
    let (made, total) = (r.made(blocks), taken(blocks) * r.interp);
    let k = total + d - 1;
    let rest = k - made * d;
    assert((made - 1) * d == made * d - d) by (nonlinear_arith);
    if made == 0 {
        assert(made * d == 0) by (nonlinear_arith)
            requires
                made == 0,
        ;
        assert(total >= 0) by (nonlinear_arith)
            requires
                total == taken(blocks) * r.interp,
                taken(blocks) >= 0,
                r.interp > 0,
        ;
    }
    assert(k == d * made + rest) by (nonlinear_arith)
        requires
            rest == k - made * d,
    ;
    vstd::arithmetic::div_mod::lemma_fundamental_div_mod_converse(k, d, made, rest);
}

} // verus!
