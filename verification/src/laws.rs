//! Library-wide laws: statements that tie the engine and the scaler down
//! beyond their individual contracts, proved once and for all inputs.

use vstd::prelude::*;

use crate::formatting::{
    engine_rec, engine_spec, engine_step, scaled_block, scaled_chain, visible_work, works_sum,
    lemma_engine_props, lemma_visible_le_last, lemma_works_sum_take_le, lemma_works_sum_take_succ,
};
use crate::types::{blocks_wf, frac_eq, genesis, lemma_mul_le_mono, Block, Chain, Ratio};

verus! {

/// Unfolds the visible work over a freshly appended record.
pub proof fn lemma_visible_push(s: Seq<Chain>, c: Chain, t: int)
    ensures
        visible_work(s.push(c), t) == if c.arrival_time <= t {
            c.work as int
        } else {
            visible_work(s, t)
        },
{
    assert(s.push(c).drop_last() =~= s);
    assert(s.push(c).last() == c);
}

/// With no network delay every positive-work block strictly extends the
/// chain: the trajectory keeps one record per block, the final height equals
/// the number of blocks, and each record's work is the sum of the works of
/// the blocks up to it.
pub proof fn lemma_engine_no_delay_serial(blocks: Seq<Block>, i: int)
    requires
        blocks_wf(blocks),
        blocks.len() <= usize::MAX,
        works_sum(blocks) <= u64::MAX,
        forall|j: int| 0 <= j < blocks.len() ==> (#[trigger] blocks[j].work) >= 1,
        0 <= i <= blocks.len(),
    ensures
        engine_rec(blocks, 0, i).len() == i + 1,
        engine_rec(blocks, 0, i).last().work == works_sum(blocks.take(i)),
    decreases i,
{
    assert forall|j: int| 0 <= j < blocks.len() implies #[trigger] blocks[j].timestamp + 0
        <= u64::MAX by {}
    if i == 0 {
        assert(engine_rec(blocks, 0, 0) =~= seq![genesis()]);
        assert(works_sum(blocks.take(0)) == 0);
    } else {
        lemma_engine_no_delay_serial(blocks, i - 1);
        lemma_engine_props(blocks, 0, i - 1);
        lemma_engine_props(blocks, 0, i);
        let prev = engine_rec(blocks, 0, i - 1);
        let b = blocks[i - 1];
        assert(prev.last().arrival_time <= b.timestamp) by {
            if i >= 2 {
                assert(prev.last().arrival_time == prev.last().timestamp + 0);
                assert(prev.last().timestamp <= blocks[i - 2].timestamp);
                assert(blocks[i - 2].timestamp < blocks[i - 1].timestamp);
            } else {
                assert(prev.last() == genesis());
            }
        }
        assert(visible_work(prev, b.timestamp as int) == prev.last().work);
        lemma_works_sum_take_succ(blocks, i - 1);
        lemma_works_sum_take_le(blocks, i, blocks.len() as int);
        assert(blocks.take(blocks.len() as int) =~= blocks);
        let cand = visible_work(prev, b.timestamp as int) + b.work;
        assert(cand > prev.last().work);
        assert(engine_rec(blocks, 0, i).last().work == cand);
    }
}

/// The no-delay law at the whole-sequence level: height equals block count.
pub proof fn lemma_engine_no_delay_height(blocks: Seq<Block>)
    requires
        blocks_wf(blocks),
        blocks.len() <= usize::MAX,
        works_sum(blocks) <= u64::MAX,
        forall|j: int| 0 <= j < blocks.len() ==> (#[trigger] blocks[j].work) >= 1,
    ensures
        engine_spec(blocks, 0).len() == blocks.len() + 1,
        engine_spec(blocks, 0).last().height == blocks.len(),
        engine_spec(blocks, 0).last().work == works_sum(blocks),
{
    lemma_engine_no_delay_serial(blocks, blocks.len() as int);
    lemma_engine_props(blocks, 0, blocks.len() as int);
    assert forall|j: int| 0 <= j < blocks.len() implies #[trigger] blocks[j].timestamp + 0
        <= u64::MAX by {}
    assert(blocks.take(blocks.len() as int) =~= blocks);
    let out = engine_spec(blocks, 0);
    assert(out.last() == out[out.len() - 1]);
    assert(out[out.len() - 1].height == out.len() - 1);
}

/// A longer delay can only slow the observer down: at every prefix of the
/// block sequence, the run with the larger delay has recorded no more
/// cumulative work, and sees no more work at any instant, than the run with
/// the smaller delay.
pub proof fn lemma_engine_delay_dominates_rec(blocks: Seq<Block>, d: int, dp: int, i: int)
    requires
        blocks_wf(blocks),
        blocks.len() <= usize::MAX,
        works_sum(blocks) <= u64::MAX,
        forall|j: int| 0 <= j < blocks.len() ==> #[trigger] blocks[j].timestamp + d <= u64::MAX,
        0 <= dp <= d,
        0 <= i <= blocks.len(),
    ensures
        engine_rec(blocks, d, i).last().work <= engine_rec(blocks, dp, i).last().work,
        forall|t: int| #[trigger] visible_work(engine_rec(blocks, d, i), t) <= visible_work(
            engine_rec(blocks, dp, i),
            t,
        ),
    decreases i,
{
    assert forall|j: int| 0 <= j < blocks.len() implies #[trigger] blocks[j].timestamp + dp
        <= u64::MAX by {
        assert(blocks[j].timestamp + d <= u64::MAX);
    }
    if i == 0 {
        assert(engine_rec(blocks, d, 0) == seq![genesis()]);
        assert(engine_rec(blocks, dp, 0) == seq![genesis()]);
    } else {
        lemma_engine_delay_dominates_rec(blocks, d, dp, i - 1);
        lemma_engine_props(blocks, d, i - 1);
        lemma_engine_props(blocks, dp, i - 1);
        lemma_works_sum_take_le(blocks, i - 1, blocks.len() as int);
        lemma_works_sum_take_le(blocks, i, blocks.len() as int);
        lemma_works_sum_take_succ(blocks, i - 1);
        assert(blocks.take(blocks.len() as int) =~= blocks);
        let o = engine_rec(blocks, d, i - 1);
        let op = engine_rec(blocks, dp, i - 1);
        let b = blocks[i - 1];
        let t0 = b.timestamp as int;
        lemma_visible_le_last(o, t0);
        lemma_visible_le_last(op, t0);
        let cand = visible_work(o, t0) + b.work;
        let candp = visible_work(op, t0) + b.work;
        assert(visible_work(o, t0) <= visible_work(op, t0));
        assert(cand <= works_sum(blocks.take(i)));
        assert(candp <= works_sum(blocks.take(i)));

        // Every record of either prefix run has arrived by `t0 + dp`.
        assert(op.last().arrival_time <= t0 + dp) by {
            if op.len() == 1 {
                assert(op.last() == op[0]);
                assert(op[0] == genesis());
            } else {
                assert(op.last().arrival_time == op.last().timestamp + dp);
                assert(op.last().timestamp <= blocks[i - 2].timestamp);
                assert(blocks[i - 2].timestamp < b.timestamp);
            }
        }

        let o2 = engine_rec(blocks, d, i);
        let op2 = engine_rec(blocks, dp, i);
        assert(o2 == engine_step(o, b, d));
        assert(op2 == engine_step(op, b, dp));

        let c = Chain {
            timestamp: b.timestamp,
            work: cand as u64,
            height: (o.last().height + 1) as u64,
            arrival_time: (b.timestamp + d) as u64,
        };
        let cp = Chain {
            timestamp: b.timestamp,
            work: candp as u64,
            height: (op.last().height + 1) as u64,
            arrival_time: (b.timestamp + dp) as u64,
        };

        if cand > o.last().work {
            assert(o2 == o.push(c));
        } else {
            assert(o2 == o);
        }
        if candp > op.last().work {
            assert(op2 == op.push(cp));
        } else {
            assert(op2 == op);
        }

        // The new last works stay ordered.
        if cand > o.last().work {
            if candp > op.last().work {
                assert(o2.last() == c && op2.last() == cp);
            } else {
                assert(cand <= candp && candp <= op.last().work);
                assert(o2.last() == c && op2.last() == op.last());
            }
        } else {
            if candp > op.last().work {
                assert(o2.last() == o.last() && op2.last() == cp);
                assert(o.last().work <= op.last().work);
            }
        }
        assert(o2.last().work <= op2.last().work);

        // Pointwise visibility stays ordered.
        assert forall|t: int| #[trigger] visible_work(o2, t) <= visible_work(op2, t) by {
            if cand > o.last().work {
                lemma_visible_push(o, c, t);
            }
            if candp > op.last().work {
                lemma_visible_push(op, cp, t);
            }
            if t >= t0 + dp {
                assert(visible_work(op, t) == op.last().work);
            }
            if cand > o.last().work && !(candp > op.last().work) {
                if t >= t0 + d {
                    assert(visible_work(o2, t) == cand);
                    assert(visible_work(op2, t) == op.last().work);
                } else {
                    assert(visible_work(o2, t) == visible_work(o, t));
                }
            }
            if cand > o.last().work && candp > op.last().work {
                if t >= t0 + d {
                    assert(visible_work(o2, t) == cand);
                    assert(visible_work(op2, t) == candp);
                } else if t >= t0 + dp {
                    assert(visible_work(o2, t) == visible_work(o, t));
                    assert(visible_work(op2, t) == candp);
                    lemma_visible_le_last(o, t);
                    assert(visible_work(o, t) <= o.last().work);
                } else {
                    assert(visible_work(o2, t) == visible_work(o, t));
                    assert(visible_work(op2, t) == visible_work(op, t));
                }
            }
            if !(cand > o.last().work) && candp > op.last().work {
                assert(visible_work(o2, t) == visible_work(o, t));
                assert(visible_work(o, t) <= visible_work(op, t));
                if cp.arrival_time <= t {
                    assert(visible_work(op2, t) == candp);
                    lemma_visible_le_last(op, t);
                    assert(visible_work(op, t) <= op.last().work);
                } else {
                    assert(visible_work(op2, t) == visible_work(op, t));
                }
            }
        }
    }
}

/// More delay cannot grow the chain's final weight: the whole trajectory
/// with delay `d` ends at no more cumulative work than with a smaller delay.
pub proof fn lemma_engine_delay_work_monotone(blocks: Seq<Block>, d: int, dp: int)
    requires
        blocks_wf(blocks),
        blocks.len() <= usize::MAX,
        works_sum(blocks) <= u64::MAX,
        forall|j: int| 0 <= j < blocks.len() ==> #[trigger] blocks[j].timestamp + d <= u64::MAX,
        0 <= dp <= d,
    ensures
        engine_spec(blocks, d).last().work <= engine_spec(blocks, dp).last().work,
{
    lemma_engine_delay_dominates_rec(blocks, d, dp, blocks.len() as int);
}

/// The visible work of a trajectory that starts at genesis is always the
/// work of one of its records.
pub proof fn lemma_visible_is_record(out: Seq<Chain>, t: int)
    requires
        out.len() >= 1,
        out[0] == genesis(),
    ensures
        exists|x: int| 0 <= x < out.len() && visible_work(out, t) == #[trigger] out[x].work,
    decreases out.len(),
{
    if out.last().arrival_time <= t {
        assert(visible_work(out, t) == out[out.len() - 1].work);
    } else if out.len() == 1 {
        assert(visible_work(out, t) == visible_work(out.drop_last(), t));
        assert(out.drop_last().len() == 0);
        assert(visible_work(out, t) == out[0].work);
    } else {
        let prefix = out.drop_last();
        assert(prefix[0] == out[0]);
        lemma_visible_is_record(prefix, t);
        let x = choose|x: int| 0 <= x < prefix.len() && visible_work(prefix, t) == #[trigger] prefix[x].work;
        assert(visible_work(out, t) == out[x].work);
    }
}

/// With every block carrying the same work `w`, each record's work is its
/// height times `w`.
pub proof fn lemma_engine_equal_works(blocks: Seq<Block>, d: int, i: int, w: int)
    requires
        blocks_wf(blocks),
        blocks.len() <= usize::MAX,
        works_sum(blocks) <= u64::MAX,
        forall|j: int| 0 <= j < blocks.len() ==> #[trigger] blocks[j].timestamp + d <= u64::MAX,
        forall|j: int| 0 <= j < blocks.len() ==> (#[trigger] blocks[j].work) == w,
        w >= 1,
        0 <= d,
        0 <= i <= blocks.len(),
    ensures
        forall|j: int|
            0 <= j < engine_rec(blocks, d, i).len() ==> (#[trigger] engine_rec(blocks, d, i)[j].work)
                == j * w,
    decreases i,
{
    if i == 0 {
        let out = engine_rec(blocks, d, 0);
        assert(out == seq![genesis()]);
        assert(out[0].work == 0);
        assert(0 * w == 0) by (nonlinear_arith);
    } else {
        lemma_engine_equal_works(blocks, d, i - 1, w);
        lemma_engine_props(blocks, d, i - 1);
        lemma_works_sum_take_le(blocks, i, blocks.len() as int);
        lemma_works_sum_take_succ(blocks, i - 1);
        assert(blocks.take(blocks.len() as int) =~= blocks);
        let o = engine_rec(blocks, d, i - 1);
        let b = blocks[i - 1];
        let t0 = b.timestamp as int;
        lemma_visible_le_last(o, t0);
        let cand = visible_work(o, t0) + b.work;
        let out = engine_rec(blocks, d, i);
        if cand > o.last().work {
            lemma_visible_is_record(o, t0);
            let x = choose|x: int| 0 <= x < o.len() && visible_work(o, t0) == #[trigger] o[x].work;
            assert(o[x].work == x * w);
            assert(o.last().work == (o.len() - 1) * w);
            assert(cand == x * w + w);
            assert(x * w + w == (x + 1) * w) by (nonlinear_arith);
            assert((x + 1) * w > (o.len() - 1) * w);
            assert(x + 1 > o.len() - 1) by {
                if x + 1 <= o.len() - 1 {
                    lemma_mul_le_mono(x + 1, o.len() - 1, w, w);
                    assert(false);
                }
            }
            assert(x + 1 == o.len() as int);
            assert(out == o.push(
                Chain {
                    timestamp: b.timestamp,
                    work: cand as u64,
                    height: (o.last().height + 1) as u64,
                    arrival_time: (b.timestamp + d) as u64,
                },
            ));
            assert(cand <= works_sum(blocks.take(i)));
            assert forall|j: int| 0 <= j < out.len() implies (#[trigger] out[j].work) == j * w by {
                if j < o.len() {
                    assert(out[j] == o[j]);
                } else {
                    assert(out[j].work == cand);
                }
            }
        } else {
            assert(out == o);
        }
    }
}

/// More delay cannot create more visible improvements when every block
/// carries the same positive work: the final height with delay `d` is at
/// most the final height with a smaller delay `dp`.  (With unequal works a
/// larger delay can occasionally record more, smaller, improvements; only
/// the cumulative work is monotone in general.)
pub proof fn lemma_engine_delay_height_monotone(blocks: Seq<Block>, d: int, dp: int, w: int)
    requires
        blocks_wf(blocks),
        blocks.len() <= usize::MAX,
        works_sum(blocks) <= u64::MAX,
        forall|j: int| 0 <= j < blocks.len() ==> #[trigger] blocks[j].timestamp + d <= u64::MAX,
        forall|j: int| 0 <= j < blocks.len() ==> (#[trigger] blocks[j].work) == w,
        w >= 1,
        0 <= dp <= d,
    ensures
        engine_spec(blocks, d).last().height <= engine_spec(blocks, dp).last().height,
{
    let n = blocks.len() as int;
    lemma_engine_delay_dominates_rec(blocks, d, dp, n);
    lemma_engine_equal_works(blocks, d, n, w);
    lemma_engine_equal_works(blocks, dp, n, w);
    lemma_engine_props(blocks, d, n);
    assert forall|j: int| 0 <= j < blocks.len() implies #[trigger] blocks[j].timestamp + dp
        <= u64::MAX by {
        assert(blocks[j].timestamp + d <= u64::MAX);
    }
    lemma_engine_props(blocks, dp, n);
    let o = engine_spec(blocks, d);
    let op = engine_spec(blocks, dp);
    assert(o.last() == o[o.len() - 1]);
    assert(op.last() == op[op.len() - 1]);
    assert(o.last().work == (o.len() - 1) * w);
    assert(op.last().work == (op.len() - 1) * w);
    assert(o.len() - 1 <= op.len() - 1) by {
        if o.len() - 1 > op.len() - 1 {
            lemma_mul_le_mono(o.len() - 1, o.len() - 1, w, w);
            assert((op.len() - 1) * w < (o.len() - 1) * w) by (nonlinear_arith)
                requires
                    op.len() - 1 < o.len() - 1,
                    w >= 1,
            ;
            assert(false);
        }
    }
    assert(o.last().height == o.len() - 1);
    assert(op.last().height == op.len() - 1);
}

/// Scaler round trip for a block: multiplying the scaled timestamp back by
/// `g` recovers the raw timestamp, and subtracting `gamma` from the scaled
/// work recovers the raw work — exactly, as rational identities over the
/// scaled sequence's denominators.
pub proof fn lemma_scale_block_round_trip(b: Block, g: Ratio, gamma: Ratio, td: int, wd: int)
    requires
        g.wf(),
        gamma.wf(),
        g.num >= 1,
        td >= 1,
        wd >= 1,
        b.timestamp * g.den <= u64::MAX,
        b.work * gamma.den + gamma.num * wd <= u64::MAX,
    ensures
        ({
            let s = scaled_block(b, g, gamma, wd);
            let std = td * g.num;
            let swd = wd * gamma.den;
            &&& frac_eq(s.timestamp * g.num, std * g.den, b.timestamp as int, td)
            &&& frac_eq(s.work * gamma.den - gamma.num * swd, swd * gamma.den, b.work as int, wd)
        }),
{
    let s = scaled_block(b, g, gamma, wd);
    let std = td * g.num;
    let swd = wd * gamma.den;
    assert(s.timestamp == b.timestamp * g.den);
    assert(s.work == b.work * gamma.den + gamma.num * wd);
    assert((s.timestamp * g.num) * td == (b.timestamp as int) * ((td * g.num) * g.den))
        by (nonlinear_arith)
        requires
            s.timestamp == b.timestamp * g.den,
    ;
    assert((s.work * gamma.den - gamma.num * (wd * gamma.den)) * wd == (b.work as int) * ((wd
        * gamma.den) * gamma.den)) by (nonlinear_arith)
        requires
            s.work == b.work * gamma.den + gamma.num * wd,
    ;
}

/// Scaler round trip for a chain record: the bonus is weighted by the
/// record's height, so the inversion subtracts `height * gamma`.
pub proof fn lemma_scale_chain_round_trip(c: Chain, g: Ratio, gamma: Ratio, td: int, wd: int)
    requires
        g.wf(),
        gamma.wf(),
        g.num >= 1,
        td >= 1,
        wd >= 1,
        c.timestamp * g.den <= u64::MAX,
        c.work * gamma.den + c.height * gamma.num * wd <= u64::MAX,
    ensures
        ({
            let s = scaled_chain(c, g, gamma, wd);
            let std = td * g.num;
            let swd = wd * gamma.den;
            &&& frac_eq(s.timestamp * g.num, std * g.den, c.timestamp as int, td)
            &&& frac_eq(
                s.work * gamma.den - c.height * gamma.num * swd,
                swd * gamma.den,
                c.work as int,
                wd,
            )
            &&& s.height == c.height
        }),
{
    let s = scaled_chain(c, g, gamma, wd);
    let std = td * g.num;
    let swd = wd * gamma.den;
    assert(s.timestamp == c.timestamp * g.den);
    assert(s.work == c.work * gamma.den + c.height * gamma.num * wd);
    assert((s.timestamp * g.num) * td == (c.timestamp as int) * ((td * g.num) * g.den))
        by (nonlinear_arith)
        requires
            s.timestamp == c.timestamp * g.den,
    ;
    assert((s.work * gamma.den - c.height * gamma.num * (wd * gamma.den)) * wd == (c.work as int)
        * ((wd * gamma.den) * gamma.den)) by (nonlinear_arith)
        requires
            s.work == c.work * gamma.den + c.height * gamma.num * wd,
    ;
}

} // verus!
