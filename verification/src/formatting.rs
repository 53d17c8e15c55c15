//! The chain-growth engine and the parameter scaler.
//!
//! The engine consumes one block sequence and a network-delay bound and
//! produces the sequence of weight-improvement records: the work-vs-time
//! trajectory of the heaviest chain an observer sees, each broadcast withheld
//! until the last legal instant.  The scaler remaps a raw sequence to another
//! protocol configuration without resampling.

use vstd::prelude::*;

use crate::types::{
    genesis, blocks_wf, chains_wf, lemma_mul_ge_one, lemma_mul_le_mono, lemma_mul_lt_mono, Block,
    BlockSeq, BlocksView, Chain, ChainSeq, ChainsView, Ratio,
};

verus! {

/// Total work of a block sequence, as a numerator sum.
pub open spec fn works_sum(blocks: Seq<Block>) -> int
    decreases blocks.len(),
{
    if blocks.len() == 0 {
        0
    } else {
        works_sum(blocks.drop_last()) + blocks.last().work
    }
}

/// The heaviest cumulative work visible at time `t`: the work of the last
/// record whose broadcast has arrived by `t`, or zero if none has.
pub open spec fn visible_work(out: Seq<Chain>, t: int) -> int
    decreases out.len(),
{
    if out.len() == 0 {
        0
    } else if out.last().arrival_time <= t {
        out.last().work as int
    } else {
        visible_work(out.drop_last(), t)
    }
}

/// One engine step: the candidate chain extends the heaviest chain visible at
/// the block's creation time; a record is appended only on a strict
/// improvement over the last recorded work.
pub open spec fn engine_step(out: Seq<Chain>, b: Block, delay: int) -> Seq<Chain> {
    let cand = visible_work(out, b.timestamp as int) + b.work;
    if cand > out.last().work {
        out.push(
            Chain {
                timestamp: b.timestamp,
                work: cand as u64,
                height: (out.last().height + 1) as u64,
                arrival_time: (b.timestamp + delay) as u64,
            },
        )
    } else {
        out
    }
}

/// The engine after the first `i` blocks, starting from the genesis record.
pub open spec fn engine_rec(blocks: Seq<Block>, delay: int, i: int) -> Seq<Chain>
    decreases i,
{
    if i <= 0 {
        seq![genesis()]
    } else {
        engine_step(engine_rec(blocks, delay, i - 1), blocks[i - 1], delay)
    }
}

/// The full weight-improvement trajectory of a block sequence under the given
/// network delay (a numerator in the sequence's time unit).
pub open spec fn engine_spec(blocks: Seq<Block>, delay: int) -> Seq<Chain> {
    engine_rec(blocks, delay, blocks.len() as int)
}

/// Structural facts that every engine output satisfies, beyond `chains_wf`:
/// each record after genesis arrives exactly `delay` after its creation, and
/// arrivals never decrease.
pub open spec fn engine_inv(out: Seq<Chain>, delay: int) -> bool {
    &&& chains_wf(out)
    &&& forall|j: int|
        1 <= j < out.len() ==> #[trigger] out[j].arrival_time == out[j].timestamp + delay
    &&& forall|i: int, j: int|
        0 <= i < j < out.len() ==> #[trigger] out[i].arrival_time <= #[trigger] out[j].arrival_time
}

/// The visible work never exceeds the last recorded work.
pub proof fn lemma_visible_le_last(out: Seq<Chain>, t: int)
    requires
        out.len() >= 1,
        forall|i: int, j: int| 0 <= i < j < out.len() ==> #[trigger] out[i].work < #[trigger] out[j].work,
    ensures
        0 <= visible_work(out, t) <= out.last().work,
    decreases out.len(),
{
    if out.last().arrival_time <= t {
    } else if out.len() == 1 {
        assert(visible_work(out, t) == visible_work(out.drop_last(), t));
        assert(out.drop_last().len() == 0);
        assert(visible_work(out.drop_last(), t) == 0);
    } else {
        assert(visible_work(out, t) == visible_work(out.drop_last(), t));
        let prefix = out.drop_last();
        assert forall|i: int, j: int| 0 <= i < j < prefix.len() implies #[trigger] prefix[i].work
            < #[trigger] prefix[j].work by {
            assert(prefix[i] == out[i]);
            assert(prefix[j] == out[j]);
        }
        lemma_visible_le_last(prefix, t);
        assert(prefix.last() == out[out.len() - 2]);
        assert(out[out.len() - 2].work < out[out.len() - 1].work);
        assert(out.last() == out[out.len() - 1]);
    }
}

/// If record `j` has arrived by `t` and record `j + 1` (when it exists) has
/// not, then record `j` carries the visible work.
pub proof fn lemma_visible_at(out: Seq<Chain>, j: int, t: int)
    requires
        0 <= j < out.len(),
        forall|a: int, b: int|
            0 <= a < b < out.len() ==> #[trigger] out[a].arrival_time <= #[trigger] out[b].arrival_time,
        out[j].arrival_time <= t,
        j + 1 < out.len() ==> out[j + 1].arrival_time > t,
    ensures
        visible_work(out, t) == out[j].work,
    decreases out.len(),
{
    if j == out.len() - 1 {
    } else {
        assert(out.last().arrival_time >= out[j + 1].arrival_time);
        let prefix = out.drop_last();
        lemma_visible_at(prefix, j, t);
    }
}

/// `works_sum` over a longer prefix is no smaller.
pub proof fn lemma_works_sum_take_le(blocks: Seq<Block>, i: int, j: int)
    requires
        0 <= i <= j <= blocks.len(),
    ensures
        works_sum(blocks.take(i)) <= works_sum(blocks.take(j)),
    decreases j - i,
{
    if i < j {
        lemma_works_sum_take_le(blocks, i, j - 1);
        assert(blocks.take(j).drop_last() =~= blocks.take(j - 1));
        assert(works_sum(blocks.take(j)) == works_sum(blocks.take(j - 1)) + blocks[j - 1].work);
    }
}

/// Extending the prefix by one block adds that block's work to the sum.
pub proof fn lemma_works_sum_take_succ(blocks: Seq<Block>, i: int)
    requires
        0 <= i < blocks.len(),
    ensures
        works_sum(blocks.take(i + 1)) == works_sum(blocks.take(i)) + blocks[i].work,
{
    assert(blocks.take(i + 1).drop_last() =~= blocks.take(i));
}

/// Every intermediate engine state satisfies the structural invariant, stays
/// within the work budget of the blocks consumed so far, and never outruns
/// the last consumed block's timestamp.
pub proof fn lemma_engine_props(blocks: Seq<Block>, delay: int, i: int)
    requires
        blocks_wf(blocks),
        blocks.len() <= usize::MAX,
        0 <= i <= blocks.len(),
        0 <= delay,
        works_sum(blocks) <= u64::MAX,
        forall|j: int| 0 <= j < blocks.len() ==> #[trigger] blocks[j].timestamp + delay <= u64::MAX,
    ensures
        engine_inv(engine_rec(blocks, delay, i), delay),
        engine_rec(blocks, delay, i).len() <= i + 1,
        engine_rec(blocks, delay, i).last().work as int <= works_sum(blocks.take(i)),
        engine_rec(blocks, delay, i).last().timestamp as int
            <= if i == 0 { 0int } else { blocks[i - 1].timestamp as int },
    decreases i,
{
    if i == 0 {
        let out = engine_rec(blocks, delay, 0);
        assert(out =~= seq![genesis()]);
        assert(out.last() == genesis());
    } else {
        lemma_engine_props(blocks, delay, i - 1);
        let prev = engine_rec(blocks, delay, i - 1);
        let b = blocks[i - 1];
        let out = engine_rec(blocks, delay, i);
        lemma_visible_le_last(prev, b.timestamp as int);
        lemma_works_sum_take_le(blocks, i - 1, blocks.len() as int);
        lemma_works_sum_take_le(blocks, i, blocks.len() as int);
        lemma_works_sum_take_succ(blocks, i - 1);
        assert(blocks.take(blocks.len() as int) =~= blocks);
        let cand = visible_work(prev, b.timestamp as int) + b.work;
        assert(cand <= works_sum(blocks.take(i)));
        assert(prev.last() == prev[prev.len() - 1]);
        if cand > prev.last().work {
            let c = Chain {
                timestamp: b.timestamp,
                work: cand as u64,
                height: (prev.last().height + 1) as u64,
                arrival_time: (b.timestamp + delay) as u64,
            };
            assert(out == prev.push(c));
            assert(prev.last().height == prev.len() - 1);
            if i >= 2 {
                assert(blocks[i - 2].timestamp < blocks[i - 1].timestamp);
            }
            assert(prev.last().timestamp < b.timestamp);
            assert(forall|a: int| 0 <= a < prev.len() ==> #[trigger] out[a] == prev[a]);
            assert(out[out.len() - 1] == c);
            assert forall|a: int, bb: int| 0 <= a < bb < out.len() implies #[trigger] out[a].timestamp
                < #[trigger] out[bb].timestamp by {
                if bb == out.len() - 1 {
                    if a < prev.len() - 1 {
                        assert(prev[a].timestamp < prev[prev.len() - 1].timestamp);
                    }
                    assert(out[a].timestamp <= prev.last().timestamp);
                }
            }
            assert forall|a: int, bb: int| 0 <= a < bb < out.len() implies #[trigger] out[a].work
                < #[trigger] out[bb].work by {
                if bb == out.len() - 1 {
                    if a < prev.len() - 1 {
                        assert(prev[a].work < prev[prev.len() - 1].work);
                    }
                    assert(out[a].work <= prev.last().work);
                }
            }
            assert forall|a: int, bb: int| 0 <= a < bb < out.len() implies
                #[trigger] out[a].arrival_time <= #[trigger] out[bb].arrival_time by {
                if bb == out.len() - 1 {
                    if a >= 1 {
                        assert(out[a].arrival_time == out[a].timestamp + delay);
                        assert(out[a].timestamp <= prev.last().timestamp);
                    }
                }
            }
            assert(chains_wf(out));
        } else {
            assert(out == prev);
        }
    }
}

/// `chains_wf` holds of the full engine output.
pub proof fn lemma_engine_spec_wf(blocks: Seq<Block>, delay: int)
    requires
        blocks_wf(blocks),
        blocks.len() <= usize::MAX,
        0 <= delay,
        works_sum(blocks) <= u64::MAX,
        forall|j: int| 0 <= j < blocks.len() ==> #[trigger] blocks[j].timestamp + delay <= u64::MAX,
    ensures
        chains_wf(engine_spec(blocks, delay)),
        engine_spec(blocks, delay).len() <= blocks.len() + 1,
{
    lemma_engine_props(blocks, delay, blocks.len() as int);
}

/// Recomputes the weight-improvement records of `blocks` under `network_delay`
/// (a numerator in the sequence's time unit) into `progresses`.
#[verifier::rlimit(60)]
pub fn get_progresses(progresses: &mut Vec<Chain>, blocks: &Vec<Block>, network_delay: u64)
    requires
        blocks_wf(blocks@),
        works_sum(blocks@) <= u64::MAX,
        forall|j: int|
            0 <= j < blocks@.len() ==> #[trigger] blocks@[j].timestamp + network_delay <= u64::MAX,
    ensures
        final(progresses)@ == engine_spec(blocks@, network_delay as int),
{
    let ghost delay = network_delay as int;
    progresses.clear();
    progresses.push(Chain { timestamp: 0, work: 0, height: 0, arrival_time: 0 });
    assert(progresses@ =~= engine_rec(blocks@, delay, 0));

    let mut last_arrival_index: usize = 0;
    let mut bi: usize = 0;
    while bi < blocks.len()
        invariant
            blocks_wf(blocks@),
            works_sum(blocks@) <= u64::MAX,
            forall|j: int|
                0 <= j < blocks@.len() ==> #[trigger] blocks@[j].timestamp + delay <= u64::MAX,
            delay == network_delay as int,
            0 <= bi <= blocks@.len(),
            progresses@ == engine_rec(blocks@, delay, bi as int),
            last_arrival_index < progresses@.len(),
            bi == 0 ==> last_arrival_index == 0,
            bi >= 1 ==> progresses@[last_arrival_index as int].arrival_time
                <= blocks@[bi - 1].timestamp,
        decreases blocks@.len() - bi,
    {
        proof {
            lemma_engine_props(blocks@, delay, bi as int);
        }
        let b = blocks[bi];
        assert(progresses@[last_arrival_index as int].arrival_time <= b.timestamp);

        while last_arrival_index < progresses.len() - 1
            && progresses[last_arrival_index + 1].arrival_time <= b.timestamp
            invariant
                progresses@ == engine_rec(blocks@, delay, bi as int),
                engine_inv(progresses@, delay),
                last_arrival_index < progresses@.len(),
                progresses@[last_arrival_index as int].arrival_time <= b.timestamp,
            decreases progresses@.len() - last_arrival_index,
        {
            last_arrival_index = last_arrival_index + 1;
        }

        proof {
            lemma_visible_at(progresses@, last_arrival_index as int, b.timestamp as int);
            lemma_visible_le_last(progresses@, b.timestamp as int);
            lemma_works_sum_take_le(blocks@, bi + 1, blocks@.len() as int);
            lemma_works_sum_take_succ(blocks@, bi as int);
            assert(blocks@.take(blocks@.len() as int) =~= blocks@);
            assert(progresses@.last().work as int <= works_sum(blocks@.take(bi as int)));
            assert(progresses@[last_arrival_index as int].work as int + b.work
                <= works_sum(blocks@.take(bi + 1)));
        }
        let last_arrival_work = progresses[last_arrival_index].work;
        let candidate = last_arrival_work + b.work;
        let last = progresses[progresses.len() - 1];
        if candidate > last.work {
            progresses.push(
                Chain {
                    timestamp: b.timestamp,
                    work: candidate,
                    height: last.height + 1,
                    arrival_time: b.timestamp + network_delay,
                },
            );
        }
        assert(progresses@ =~= engine_rec(blocks@, delay, bi + 1));
        bi = bi + 1;
    }
    assert(progresses@ == engine_spec(blocks@, delay));
}

/// The engine's arithmetic stays in range for this sequence and delay.
pub open spec fn engine_fits(s: BlocksView, delay: int) -> bool {
    &&& works_sum(s.blocks) <= u64::MAX
    &&& forall|j: int|
        0 <= j < s.blocks.len() ==> #[trigger] s.blocks[j].timestamp + delay <= u64::MAX
}

/// The trajectory the engine derives from a block sequence, with the
/// sequence's units carried over.
pub open spec fn engine_view(v: BlocksView, delay: int) -> ChainsView {
    ChainsView { chains: engine_spec(v.blocks, delay), time_den: v.time_den, work_den: v.work_den }
}

/// Recomputes one weight-improvement sequence per trial, reusing the caller's
/// buffer.  `network_delay` is a numerator in the sequences' shared time unit.
pub fn get_monte_carlo_progresses(
    monte_carlo_progresses: &mut Vec<ChainSeq>,
    monte_carlo_blocks: &Vec<BlockSeq>,
    network_delay: u64,
)
    requires
        forall|i: int|
            0 <= i < monte_carlo_blocks@.len() ==> (#[trigger] monte_carlo_blocks@[i]).wf(),
        forall|i: int|
            0 <= i < monte_carlo_blocks@.len() ==> engine_fits(
                (#[trigger] monte_carlo_blocks@[i])@,
                network_delay as int,
            ),
    ensures
        final(monte_carlo_progresses)@.len() == monte_carlo_blocks@.len(),
        forall|i: int|
            0 <= i < monte_carlo_blocks@.len() ==> {
                let p = #[trigger] final(monte_carlo_progresses)@[i];
                &&& p.time_den == monte_carlo_blocks@[i].time_den
                &&& p.work_den == monte_carlo_blocks@[i].work_den
                &&& p.chains@ == engine_spec(monte_carlo_blocks@[i].blocks@, network_delay as int)
                &&& p@ == engine_view(monte_carlo_blocks@[i]@, network_delay as int)
            },
{
    while monte_carlo_progresses.len() > monte_carlo_blocks.len()
        invariant
            monte_carlo_progresses@.len() >= 0,
        decreases monte_carlo_progresses@.len(),
    {
        monte_carlo_progresses.pop();
    }
    while monte_carlo_progresses.len() < monte_carlo_blocks.len()
        invariant
            monte_carlo_progresses@.len() <= monte_carlo_blocks@.len(),
        decreases monte_carlo_blocks@.len() - monte_carlo_progresses@.len(),
    {
        monte_carlo_progresses.push(ChainSeq { chains: Vec::new(), time_den: 1, work_den: 1 });
    }
    let mut i: usize = 0;
    while i < monte_carlo_blocks.len()
        invariant
            forall|t: int|
                0 <= t < monte_carlo_blocks@.len() ==> (#[trigger] monte_carlo_blocks@[t]).wf(),
            forall|t: int|
                0 <= t < monte_carlo_blocks@.len() ==> engine_fits(
                    (#[trigger] monte_carlo_blocks@[t])@,
                    network_delay as int,
                ),
            0 <= i <= monte_carlo_blocks@.len(),
            monte_carlo_progresses@.len() == monte_carlo_blocks@.len(),
            forall|t: int|
                0 <= t < i ==> (#[trigger] monte_carlo_progresses@[t]).time_den
                    == monte_carlo_blocks@[t].time_den && monte_carlo_progresses@[t].work_den
                    == monte_carlo_blocks@[t].work_den && monte_carlo_progresses@[t].chains@
                    == engine_spec(monte_carlo_blocks@[t].blocks@, network_delay as int)
                    && monte_carlo_progresses@[t]@ == engine_view(
                    monte_carlo_blocks@[t]@,
                    network_delay as int,
                ),
        decreases monte_carlo_blocks@.len() - i,
    {
        let s = &monte_carlo_blocks[i];
        let p = &mut monte_carlo_progresses[i];
        get_progresses(&mut p.chains, &s.blocks, network_delay);
        p.time_den = s.time_den;
        p.work_den = s.work_den;
        i = i + 1;
    }
}

/// One block under a new configuration: its timestamp divided by `g` and its
/// work increased by `gamma`.  `work_den` is the raw sequence's work unit.
pub open spec fn scaled_block(b: Block, g: Ratio, gamma: Ratio, work_den: int) -> Block {
    Block {
        timestamp: (b.timestamp * g.den) as u64,
        work: (b.work * gamma.den + gamma.num * work_den) as u64,
    }
}

/// One chain record under a new configuration: the bonus accrues once per
/// chain-extension event, so it is weighted by the record's height.  The
/// arrival time is cleared; scaled records feed only the analyzer.
pub open spec fn scaled_chain(c: Chain, g: Ratio, gamma: Ratio, work_den: int) -> Chain {
    Chain {
        timestamp: (c.timestamp * g.den) as u64,
        work: (c.work * gamma.den + c.height * gamma.num * work_den) as u64,
        height: c.height,
        arrival_time: 0,
    }
}

/// A block sequence remapped to `(g, gamma)`, at the view level.
pub open spec fn scaled_blocks_view(v: BlocksView, g: Ratio, gamma: Ratio) -> BlocksView {
    BlocksView {
        blocks: Seq::new(v.blocks.len(), |i: int| scaled_block(v.blocks[i], g, gamma, v.work_den)),
        time_den: v.time_den * g.num,
        work_den: v.work_den * gamma.den,
    }
}

/// A chain sequence remapped to `(g, gamma)`, at the view level.
pub open spec fn scaled_chains_view(v: ChainsView, g: Ratio, gamma: Ratio) -> ChainsView {
    ChainsView {
        chains: Seq::new(v.chains.len(), |i: int| scaled_chain(v.chains[i], g, gamma, v.work_den)),
        time_den: v.time_den * g.num,
        work_den: v.work_den * gamma.den,
    }
}

/// The scaler's arithmetic stays in range for this block sequence.
pub open spec fn block_scale_fits(s: BlockSeq, g: Ratio, gamma: Ratio) -> bool {
    &&& s.time_den * g.num <= u64::MAX
    &&& s.work_den * gamma.den <= u64::MAX
    &&& forall|i: int|
        0 <= i < s.blocks@.len() ==> (#[trigger] s.blocks@[i]).timestamp * g.den <= u64::MAX
    &&& forall|i: int|
        0 <= i < s.blocks@.len() ==> (#[trigger] s.blocks@[i]).work * gamma.den + gamma.num
            * s.work_den <= u64::MAX
}

/// The scaler's arithmetic stays in range for this chain sequence.
pub open spec fn chain_scale_fits(s: ChainsView, g: Ratio, gamma: Ratio) -> bool {
    &&& s.time_den * g.num <= u64::MAX
    &&& s.work_den * gamma.den <= u64::MAX
    &&& forall|i: int|
        0 <= i < s.chains.len() ==> (#[trigger] s.chains[i]).timestamp * g.den <= u64::MAX
    &&& forall|i: int|
        0 <= i < s.chains.len() ==> (#[trigger] s.chains[i]).work * gamma.den + s.chains[i].height
            * gamma.num * s.work_den <= u64::MAX
}

/// Remaps a raw block sequence to the configuration `(g, gamma)` without
/// resampling, writing into the caller-provided buffer.
pub fn scale_blocks(scaled: &mut BlockSeq, original: &BlockSeq, g: Ratio, gamma: Ratio)
    requires
        original.wf(),
        g.wf(),
        gamma.wf(),
        g.num >= 1,
        block_scale_fits(*original, g, gamma),
    ensures
        final(scaled).time_den == original.time_den * g.num,
        final(scaled).work_den == original.work_den * gamma.den,
        final(scaled).blocks@.len() == original.blocks@.len(),
        forall|i: int|
            0 <= i < original.blocks@.len() ==> final(scaled).blocks@[i] == scaled_block(
                #[trigger] original.blocks@[i],
                g,
                gamma,
                original.work_den as int,
            ),
        final(scaled).wf(),
        final(scaled)@ == scaled_blocks_view(original@, g, gamma),
{
    scaled.blocks.clear();
    let mut i: usize = 0;
    while i < original.blocks.len()
        invariant
            original.wf(),
            g.wf(),
            gamma.wf(),
            block_scale_fits(*original, g, gamma),
            0 <= i <= original.blocks@.len(),
            scaled.blocks@.len() == i,
            forall|t: int|
                0 <= t < i ==> scaled.blocks@[t] == scaled_block(
                    #[trigger] original.blocks@[t],
                    g,
                    gamma,
                    original.work_den as int,
                ),
        decreases original.blocks@.len() - i,
    {
        let b = original.blocks[i];
        scaled.blocks.push(
            Block {
                timestamp: b.timestamp * g.den,
                work: b.work * gamma.den + gamma.num * original.work_den,
            },
        );
        i = i + 1;
    }
    proof {
        let blocks = scaled.blocks;
        assert forall|a: int| 0 <= a < blocks@.len() implies #[trigger] blocks@[a].timestamp >= 1 by {
            lemma_mul_ge_one(original.blocks@[a].timestamp as int, g.den as int);
        }
        assert forall|a: int, b: int| 0 <= a < b < blocks@.len() implies
            #[trigger] blocks@[a].timestamp < #[trigger] blocks@[b].timestamp by {
            lemma_mul_lt_mono(
                original.blocks@[a].timestamp as int,
                original.blocks@[b].timestamp as int,
                g.den as int,
            );
        }
        lemma_mul_ge_one(original.time_den as int, g.num as int);
        lemma_mul_ge_one(original.work_den as int, gamma.den as int);
    }
    scaled.time_den = original.time_den * g.num;
    scaled.work_den = original.work_den * gamma.den;
    proof {
        assert(scaled@.blocks =~= scaled_blocks_view(original@, g, gamma).blocks);
        assert(scaled@ =~= scaled_blocks_view(original@, g, gamma));
    }
}

/// Remaps a raw chain sequence to the configuration `(g, gamma)` without
/// recomputation, writing into the caller-provided buffer.
pub fn scale_progresses(scaled: &mut ChainSeq, original: &ChainSeq, g: Ratio, gamma: Ratio)
    requires
        original.wf(),
        g.wf(),
        gamma.wf(),
        g.num >= 1,
        chain_scale_fits(original@, g, gamma),
    ensures
        final(scaled).time_den == original.time_den * g.num,
        final(scaled).work_den == original.work_den * gamma.den,
        final(scaled).chains@.len() == original.chains@.len(),
        forall|i: int|
            0 <= i < original.chains@.len() ==> final(scaled).chains@[i] == scaled_chain(
                #[trigger] original.chains@[i],
                g,
                gamma,
                original.work_den as int,
            ),
        final(scaled).wf(),
        final(scaled)@ == scaled_chains_view(original@, g, gamma),
{
    scaled.chains.clear();
    let mut i: usize = 0;
    while i < original.chains.len()
        invariant
            original.wf(),
            g.wf(),
            gamma.wf(),
            chain_scale_fits(original@, g, gamma),
            0 <= i <= original.chains@.len(),
            scaled.chains@.len() == i,
            forall|t: int|
                0 <= t < i ==> scaled.chains@[t] == scaled_chain(
                    #[trigger] original.chains@[t],
                    g,
                    gamma,
                    original.work_den as int,
                ),
        decreases original.chains@.len() - i,
    {
        let c = original.chains[i];
        proof {
            assert(original@.chains == original.chains@);
            assert(original@.chains[i as int] == c);
            lemma_mul_le_mono(
                c.height * gamma.num,
                c.height * gamma.num,
                1,
                original.work_den as int,
            );
        }
        scaled.chains.push(
            Chain {
                timestamp: c.timestamp * g.den,
                work: c.work * gamma.den + (c.height * gamma.num) * original.work_den,
                height: c.height,
                arrival_time: 0,
            },
        );
        i = i + 1;
    }
    proof {
        let chains = scaled.chains;
        let wd = original.work_den as int;
        assert(original@.chains == original.chains@);
        assert(original.chains@[0] == genesis());
        assert(chains@[0] == scaled_chain(original.chains@[0], g, gamma, wd));
        assert(0 * (g.den as int) == 0) by (nonlinear_arith);
        assert(0 * (gamma.den as int) == 0) by (nonlinear_arith);
        assert(0 * (gamma.num as int) == 0) by (nonlinear_arith);
        assert(0 * wd == 0) by (nonlinear_arith);
        assert(chains@[0] == genesis());
        assert forall|a: int| 0 <= a < chains@.len() implies #[trigger] chains@[a].height == a by {
            assert(chains@[a] == scaled_chain(original.chains@[a], g, gamma, wd));
        }
        assert forall|a: int, b: int| 0 <= a < b < chains@.len() implies
            #[trigger] chains@[a].timestamp < #[trigger] chains@[b].timestamp by {
            assert(original@.chains[a] == original.chains@[a]);
            assert(original@.chains[b] == original.chains@[b]);
            assert(chains@[a] == scaled_chain(original.chains@[a], g, gamma, wd));
            assert(chains@[b] == scaled_chain(original.chains@[b], g, gamma, wd));
            lemma_mul_lt_mono(
                original.chains@[a].timestamp as int,
                original.chains@[b].timestamp as int,
                g.den as int,
            );
        }
        assert forall|a: int, b: int| 0 <= a < b < chains@.len() implies #[trigger] chains@[a].work
            < #[trigger] chains@[b].work by {
            assert(original@.chains[a] == original.chains@[a]);
            assert(original@.chains[b] == original.chains@[b]);
            assert(chains@[a] == scaled_chain(original.chains@[a], g, gamma, wd));
            assert(chains@[b] == scaled_chain(original.chains@[b], g, gamma, wd));
            lemma_mul_lt_mono(
                original.chains@[a].work as int,
                original.chains@[b].work as int,
                gamma.den as int,
            );
            lemma_mul_le_mono(
                original.chains@[a].height as int,
                original.chains@[b].height as int,
                gamma.num as int,
                gamma.num as int,
            );
            lemma_mul_le_mono(
                original.chains@[a].height * gamma.num,
                original.chains@[b].height * gamma.num,
                wd,
                wd,
            );
        }
        lemma_mul_ge_one(original.time_den as int, g.num as int);
        lemma_mul_ge_one(original.work_den as int, gamma.den as int);
    }
    scaled.time_den = original.time_den * g.num;
    scaled.work_den = original.work_den * gamma.den;
    proof {
        assert(scaled@.chains =~= scaled_chains_view(original@, g, gamma).chains);
        assert(scaled@ =~= scaled_chains_view(original@, g, gamma));
    }
}

/// Scales every trial's block sequence to `(g, gamma)`.
pub fn scale_monte_carlo_blocks(
    scaled_monte_carlo_blocks: &mut Vec<BlockSeq>,
    original_monte_carlo_blocks: &Vec<BlockSeq>,
    g: Ratio,
    gamma: Ratio,
)
    requires
        g.wf(),
        gamma.wf(),
        g.num >= 1,
        forall|i: int|
            0 <= i < original_monte_carlo_blocks@.len() ==> (
            #[trigger] original_monte_carlo_blocks@[i]).wf() && block_scale_fits(
                original_monte_carlo_blocks@[i],
                g,
                gamma,
            ),
    ensures
        final(scaled_monte_carlo_blocks)@.len() == original_monte_carlo_blocks@.len(),
        forall|i: int|
            0 <= i < original_monte_carlo_blocks@.len() ==> {
                let orig = #[trigger] original_monte_carlo_blocks@[i];
                let s = final(scaled_monte_carlo_blocks)@[i];
                &&& s.time_den == orig.time_den * g.num
                &&& s.work_den == orig.work_den * gamma.den
                &&& s.blocks@.len() == orig.blocks@.len()
                &&& forall|j: int|
                    0 <= j < orig.blocks@.len() ==> s.blocks@[j] == scaled_block(
                        #[trigger] orig.blocks@[j],
                        g,
                        gamma,
                        orig.work_den as int,
                    )
                &&& s.wf()
                &&& s@ == scaled_blocks_view(orig@, g, gamma)
            },
{
    while scaled_monte_carlo_blocks.len() > original_monte_carlo_blocks.len()
        invariant
            scaled_monte_carlo_blocks@.len() >= 0,
        decreases scaled_monte_carlo_blocks@.len(),
    {
        scaled_monte_carlo_blocks.pop();
    }
    while scaled_monte_carlo_blocks.len() < original_monte_carlo_blocks.len()
        invariant
            scaled_monte_carlo_blocks@.len() <= original_monte_carlo_blocks@.len(),
        decreases original_monte_carlo_blocks@.len() - scaled_monte_carlo_blocks@.len(),
    {
        scaled_monte_carlo_blocks.push(BlockSeq { blocks: Vec::new(), time_den: 1, work_den: 1 });
    }
    let mut i: usize = 0;
    while i < original_monte_carlo_blocks.len()
        invariant
            g.wf(),
            gamma.wf(),
            g.num >= 1,
            forall|t: int|
                0 <= t < original_monte_carlo_blocks@.len() ==> (
                #[trigger] original_monte_carlo_blocks@[t]).wf() && block_scale_fits(
                    original_monte_carlo_blocks@[t],
                    g,
                    gamma,
                ),
            0 <= i <= original_monte_carlo_blocks@.len(),
            scaled_monte_carlo_blocks@.len() == original_monte_carlo_blocks@.len(),
            forall|t: int|
                0 <= t < i ==> {
                    let orig = #[trigger] original_monte_carlo_blocks@[t];
                    let s = scaled_monte_carlo_blocks@[t];
                    &&& s.time_den == orig.time_den * g.num
                    &&& s.work_den == orig.work_den * gamma.den
                    &&& s.blocks@.len() == orig.blocks@.len()
                    &&& forall|j: int|
                        0 <= j < orig.blocks@.len() ==> s.blocks@[j] == scaled_block(
                            #[trigger] orig.blocks@[j],
                            g,
                            gamma,
                            orig.work_den as int,
                        )
                    &&& s.wf()
                    &&& s@ == scaled_blocks_view(orig@, g, gamma)
                },
        decreases original_monte_carlo_blocks@.len() - i,
    {
        scale_blocks(&mut scaled_monte_carlo_blocks[i], &original_monte_carlo_blocks[i], g, gamma);
        i = i + 1;
    }
}

/// Scales every trial's chain sequence to `(g, gamma)`.
pub fn scale_monte_carlo_progresses(
    scaled_monte_carlo_progresses: &mut Vec<ChainSeq>,
    original_monte_carlo_progresses: &Vec<ChainSeq>,
    g: Ratio,
    gamma: Ratio,
)
    requires
        g.wf(),
        gamma.wf(),
        g.num >= 1,
        forall|i: int|
            0 <= i < original_monte_carlo_progresses@.len() ==> (
            #[trigger] original_monte_carlo_progresses@[i]).wf() && chain_scale_fits(
                original_monte_carlo_progresses@[i]@,
                g,
                gamma,
            ),
    ensures
        final(scaled_monte_carlo_progresses)@.len() == original_monte_carlo_progresses@.len(),
        forall|i: int|
            0 <= i < original_monte_carlo_progresses@.len() ==> {
                let orig = #[trigger] original_monte_carlo_progresses@[i];
                let s = final(scaled_monte_carlo_progresses)@[i];
                &&& s.time_den == orig.time_den * g.num
                &&& s.work_den == orig.work_den * gamma.den
                &&& s.chains@.len() == orig.chains@.len()
                &&& forall|j: int|
                    0 <= j < orig.chains@.len() ==> s.chains@[j] == scaled_chain(
                        #[trigger] orig.chains@[j],
                        g,
                        gamma,
                        orig.work_den as int,
                    )
                &&& s.wf()
                &&& s@ == scaled_chains_view(orig@, g, gamma)
            },
{
    while scaled_monte_carlo_progresses.len() > original_monte_carlo_progresses.len()
        invariant
            scaled_monte_carlo_progresses@.len() >= 0,
        decreases scaled_monte_carlo_progresses@.len(),
    {
        scaled_monte_carlo_progresses.pop();
    }
    while scaled_monte_carlo_progresses.len() < original_monte_carlo_progresses.len()
        invariant
            scaled_monte_carlo_progresses@.len() <= original_monte_carlo_progresses@.len(),
        decreases original_monte_carlo_progresses@.len() - scaled_monte_carlo_progresses@.len(),
    {
        scaled_monte_carlo_progresses.push(
            ChainSeq { chains: Vec::new(), time_den: 1, work_den: 1 },
        );
    }
    let mut i: usize = 0;
    while i < original_monte_carlo_progresses.len()
        invariant
            g.wf(),
            gamma.wf(),
            g.num >= 1,
            forall|t: int|
                0 <= t < original_monte_carlo_progresses@.len() ==> (
                #[trigger] original_monte_carlo_progresses@[t]).wf() && chain_scale_fits(
                    original_monte_carlo_progresses@[t]@,
                    g,
                    gamma,
                ),
            0 <= i <= original_monte_carlo_progresses@.len(),
            scaled_monte_carlo_progresses@.len() == original_monte_carlo_progresses@.len(),
            forall|t: int|
                0 <= t < i ==> {
                    let orig = #[trigger] original_monte_carlo_progresses@[t];
                    let s = scaled_monte_carlo_progresses@[t];
                    &&& s.time_den == orig.time_den * g.num
                    &&& s.work_den == orig.work_den * gamma.den
                    &&& s.chains@.len() == orig.chains@.len()
                    &&& forall|j: int|
                        0 <= j < orig.chains@.len() ==> s.chains@[j] == scaled_chain(
                            #[trigger] orig.chains@[j],
                            g,
                            gamma,
                            orig.work_den as int,
                        )
                    &&& s.wf()
                    &&& s@ == scaled_chains_view(orig@, g, gamma)
                },
        decreases original_monte_carlo_progresses@.len() - i,
    {
        scale_progresses(
            &mut scaled_monte_carlo_progresses[i],
            &original_monte_carlo_progresses[i],
            g,
            gamma,
        );
        i = i + 1;
    }
}

} // verus!
