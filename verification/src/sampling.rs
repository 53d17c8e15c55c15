//! The deterministic half of the arrival sampler.
//!
//! Random draws happen outside the library: the caller quantizes each
//! exponential inter-arrival gap (and, for the PoEM work model, each work
//! draw) to at least one tick of the chosen time unit and hands the integer
//! gaps in.  This module turns gaps into strictly increasing timestamps and
//! pairs timestamps with works into block sequences.

use vstd::prelude::*;

use crate::types::{blocks_wf, Block, BlockSeq};

verus! {

/// Sum of the first `i` gaps.
pub open spec fn deltas_sum(d: Seq<u64>, i: int) -> int
    decreases i,
{
    if i <= 0 {
        0
    } else {
        deltas_sum(d, i - 1) + d[i - 1]
    }
}

/// Gap sums grow by at least one per positive gap.
pub proof fn lemma_deltas_sum_grows(d: Seq<u64>, i: int, j: int)
    requires
        forall|t: int| 0 <= t < d.len() ==> (#[trigger] d[t]) >= 1,
        0 <= i <= j <= d.len(),
    ensures
        deltas_sum(d, i) + (j - i) <= deltas_sum(d, j),
    decreases j - i,
{
    if i < j {
        lemma_deltas_sum_grows(d, i, j - 1);
    }
}

/// Turns strictly positive inter-arrival gaps into the strictly increasing
/// timestamps of a Poisson-style arrival sequence: each timestamp is the
/// cumulative sum of the gaps before it.
pub fn sample_timestamps(inter_arrival_gaps: &Vec<u64>) -> (r: Vec<u64>)
    requires
        forall|t: int| 0 <= t < inter_arrival_gaps@.len() ==> (#[trigger] inter_arrival_gaps@[t])
            >= 1,
        deltas_sum(inter_arrival_gaps@, inter_arrival_gaps@.len() as int) <= u64::MAX,
    ensures
        r@.len() == inter_arrival_gaps@.len(),
        forall|i: int| 0 <= i < r@.len() ==> (#[trigger] r@[i]) == deltas_sum(
            inter_arrival_gaps@,
            i + 1,
        ),
        forall|i: int| 0 <= i < r@.len() ==> (#[trigger] r@[i]) >= 1,
        forall|i: int, j: int| 0 <= i < j < r@.len() ==> #[trigger] r@[i] < #[trigger] r@[j],
{
    let d = inter_arrival_gaps;
    let mut block_timestamps: Vec<u64> = Vec::new();
    let mut block_time: u64 = 0;
    let mut i: usize = 0;
    while i < d.len()
        invariant
            d == inter_arrival_gaps,
            forall|t: int| 0 <= t < d@.len() ==> (#[trigger] d@[t]) >= 1,
            deltas_sum(d@, d@.len() as int) <= u64::MAX,
            0 <= i <= d@.len(),
            block_time == deltas_sum(d@, i as int),
            block_timestamps@.len() == i,
            forall|t: int| 0 <= t < i ==> (#[trigger] block_timestamps@[t]) == deltas_sum(
                d@,
                t + 1,
            ),
        decreases d@.len() - i,
    {
        proof {
            lemma_deltas_sum_grows(d@, i + 1, d@.len() as int);
            lemma_deltas_sum_grows(d@, 0, i as int);
        }
        block_time = block_time + d[i];
        block_timestamps.push(block_time);
        i = i + 1;
    }
    proof {
        assert forall|a: int| 0 <= a < block_timestamps@.len() implies (
        #[trigger] block_timestamps@[a]) >= 1 by {
            lemma_deltas_sum_grows(d@, 0, a + 1);
        }
        assert forall|a: int, b: int| 0 <= a < b < block_timestamps@.len() implies
            #[trigger] block_timestamps@[a] < #[trigger] block_timestamps@[b] by {
            lemma_deltas_sum_grows(d@, a + 1, b + 1);
        }
    }
    block_timestamps
}

/// Unit-work blocks: every block carries one full work unit.
pub fn get_bitcoin_blocks(block_timestamps: &Vec<u64>, work_den: u64) -> (r: Vec<Block>)
    ensures
        r@.len() == block_timestamps@.len(),
        forall|i: int| 0 <= i < r@.len() ==> (#[trigger] r@[i]) == (Block {
            timestamp: block_timestamps@[i],
            work: work_den,
        }),
{
    let mut blocks: Vec<Block> = Vec::new();
    let mut i: usize = 0;
    while i < block_timestamps.len()
        invariant
            0 <= i <= block_timestamps@.len(),
            blocks@.len() == i,
            forall|t: int| 0 <= t < i ==> (#[trigger] blocks@[t]) == (Block {
                timestamp: block_timestamps@[t],
                work: work_den,
            }),
        decreases block_timestamps@.len() - i,
    {
        blocks.push(Block { timestamp: block_timestamps[i], work: work_den });
        i = i + 1;
    }
    blocks
}

/// Entropy-work blocks: pairs each timestamp with its caller-drawn work.
pub fn sample_poem_blocks(block_timestamps: &Vec<u64>, works: &Vec<u64>) -> (r: Vec<Block>)
    requires
        block_timestamps@.len() == works@.len(),
    ensures
        r@.len() == block_timestamps@.len(),
        forall|i: int| 0 <= i < r@.len() ==> (#[trigger] r@[i]) == (Block {
            timestamp: block_timestamps@[i],
            work: works@[i],
        }),
{
    let mut blocks: Vec<Block> = Vec::new();
    let mut i: usize = 0;
    while i < block_timestamps.len()
        invariant
            block_timestamps@.len() == works@.len(),
            0 <= i <= block_timestamps@.len(),
            blocks@.len() == i,
            forall|t: int| 0 <= t < i ==> (#[trigger] blocks@[t]) == (Block {
                timestamp: block_timestamps@[t],
                work: works@[t],
            }),
        decreases block_timestamps@.len() - i,
    {
        blocks.push(Block { timestamp: block_timestamps[i], work: works[i] });
        i = i + 1;
    }
    blocks
}

/// Strictly increasing, strictly positive timestamps per trial.
pub open spec fn timestamps_wf(ts: Seq<u64>) -> bool {
    &&& forall|i: int| 0 <= i < ts.len() ==> (#[trigger] ts[i]) >= 1
    &&& forall|i: int, j: int| 0 <= i < j < ts.len() ==> #[trigger] ts[i] < #[trigger] ts[j]
}

/// Builds one unit-work block sequence per trial for both roles, from
/// pre-sampled timestamps.
pub fn get_monte_carlo_bitcoin_executions(
    honest_timestamps: &Vec<Vec<u64>>,
    adversary_timestamps: &Vec<Vec<u64>>,
    time_den: u64,
    work_den: u64,
) -> (r: (Vec<BlockSeq>, Vec<BlockSeq>))
    requires
        time_den >= 1,
        work_den >= 1,
        forall|i: int|
            0 <= i < honest_timestamps@.len() ==> timestamps_wf(#[trigger] honest_timestamps@[i]@),
        forall|i: int|
            0 <= i < adversary_timestamps@.len() ==> timestamps_wf(
                #[trigger] adversary_timestamps@[i]@,
            ),
    ensures
        r.0@.len() == honest_timestamps@.len(),
        r.1@.len() == adversary_timestamps@.len(),
        forall|i: int|
            0 <= i < r.0@.len() ==> {
                let s = #[trigger] r.0@[i];
                &&& s.wf()
                &&& s.time_den == time_den
                &&& s.work_den == work_den
                &&& s.blocks@.len() == honest_timestamps@[i]@.len()
                &&& forall|j: int|
                    0 <= j < s.blocks@.len() ==> (#[trigger] s.blocks@[j]) == (Block {
                        timestamp: honest_timestamps@[i]@[j],
                        work: work_den,
                    })
            },
        forall|i: int|
            0 <= i < r.1@.len() ==> {
                let s = #[trigger] r.1@[i];
                &&& s.wf()
                &&& s.time_den == time_den
                &&& s.work_den == work_den
                &&& s.blocks@.len() == adversary_timestamps@[i]@.len()
                &&& forall|j: int|
                    0 <= j < s.blocks@.len() ==> (#[trigger] s.blocks@[j]) == (Block {
                        timestamp: adversary_timestamps@[i]@[j],
                        work: work_den,
                    })
            },
{
    let honest = bitcoin_block_seqs(honest_timestamps, time_den, work_den);
    let adversary = bitcoin_block_seqs(adversary_timestamps, time_den, work_den);
    (honest, adversary)
}

/// Builds one entropy-work block sequence per trial for both roles, from
/// pre-sampled timestamps and pre-drawn works.
pub fn sample_monte_carlo_poem_executions(
    honest_timestamps: &Vec<Vec<u64>>,
    adversary_timestamps: &Vec<Vec<u64>>,
    honest_works: &Vec<Vec<u64>>,
    adversary_works: &Vec<Vec<u64>>,
    time_den: u64,
    work_den: u64,
) -> (r: (Vec<BlockSeq>, Vec<BlockSeq>))
    requires
        time_den >= 1,
        work_den >= 1,
        honest_timestamps@.len() == honest_works@.len(),
        adversary_timestamps@.len() == adversary_works@.len(),
        forall|i: int|
            0 <= i < honest_timestamps@.len() ==> timestamps_wf(#[trigger] honest_timestamps@[i]@)
                && honest_timestamps@[i]@.len() == honest_works@[i]@.len(),
        forall|i: int|
            0 <= i < adversary_timestamps@.len() ==> timestamps_wf(
                #[trigger] adversary_timestamps@[i]@,
            ) && adversary_timestamps@[i]@.len() == adversary_works@[i]@.len(),
    ensures
        r.0@.len() == honest_timestamps@.len(),
        r.1@.len() == adversary_timestamps@.len(),
        forall|i: int|
            0 <= i < r.0@.len() ==> {
                let s = #[trigger] r.0@[i];
                &&& s.wf()
                &&& s.time_den == time_den
                &&& s.work_den == work_den
                &&& s.blocks@.len() == honest_timestamps@[i]@.len()
                &&& forall|j: int|
                    0 <= j < s.blocks@.len() ==> (#[trigger] s.blocks@[j]) == (Block {
                        timestamp: honest_timestamps@[i]@[j],
                        work: honest_works@[i]@[j],
                    })
            },
        forall|i: int|
            0 <= i < r.1@.len() ==> {
                let s = #[trigger] r.1@[i];
                &&& s.wf()
                &&& s.time_den == time_den
                &&& s.work_den == work_den
                &&& s.blocks@.len() == adversary_timestamps@[i]@.len()
                &&& forall|j: int|
                    0 <= j < s.blocks@.len() ==> (#[trigger] s.blocks@[j]) == (Block {
                        timestamp: adversary_timestamps@[i]@[j],
                        work: adversary_works@[i]@[j],
                    })
            },
{
    let honest = poem_block_seqs(honest_timestamps, honest_works, time_den, work_den);
    let adversary = poem_block_seqs(adversary_timestamps, adversary_works, time_den, work_den);
    (honest, adversary)
}

/// Builds entropy-work block sequences for one role.
fn poem_block_seqs(
    timestamps: &Vec<Vec<u64>>,
    works: &Vec<Vec<u64>>,
    time_den: u64,
    work_den: u64,
) -> (r: Vec<BlockSeq>)
    requires
        time_den >= 1,
        work_den >= 1,
        timestamps@.len() == works@.len(),
        forall|i: int|
            0 <= i < timestamps@.len() ==> timestamps_wf(#[trigger] timestamps@[i]@)
                && timestamps@[i]@.len() == works@[i]@.len(),
    ensures
        r@.len() == timestamps@.len(),
        forall|i: int|
            0 <= i < r@.len() ==> {
                let s = #[trigger] r@[i];
                &&& s.wf()
                &&& s.time_den == time_den
                &&& s.work_den == work_den
                &&& s.blocks@.len() == timestamps@[i]@.len()
                &&& forall|j: int|
                    0 <= j < s.blocks@.len() ==> (#[trigger] s.blocks@[j]) == (Block {
                        timestamp: timestamps@[i]@[j],
                        work: works@[i]@[j],
                    })
            },
{
    let mut result: Vec<BlockSeq> = Vec::new();
    let mut i: usize = 0;
    while i < timestamps.len()
        invariant
            time_den >= 1,
            work_den >= 1,
            timestamps@.len() == works@.len(),
            forall|t: int|
                0 <= t < timestamps@.len() ==> timestamps_wf(#[trigger] timestamps@[t]@)
                    && timestamps@[t]@.len() == works@[t]@.len(),
            0 <= i <= timestamps@.len(),
            result@.len() == i,
            forall|t: int|
                0 <= t < i ==> {
                    let s = #[trigger] result@[t];
                    &&& s.wf()
                    &&& s.time_den == time_den
                    &&& s.work_den == work_den
                    &&& s.blocks@.len() == timestamps@[t]@.len()
                    &&& forall|j: int|
                        0 <= j < s.blocks@.len() ==> (#[trigger] s.blocks@[j]) == (Block {
                            timestamp: timestamps@[t]@[j],
                            work: works@[t]@[j],
                        })
                },
        decreases timestamps@.len() - i,
    {
        let blocks = sample_poem_blocks(&timestamps[i], &works[i]);
        proof {
            assert(blocks_wf(blocks@));
        }
        result.push(BlockSeq { blocks, time_den, work_den });
        i = i + 1;
    }
    result
}

/// Builds unit-work block sequences for one role.
fn bitcoin_block_seqs(timestamps: &Vec<Vec<u64>>, time_den: u64, work_den: u64) -> (r: Vec<
    BlockSeq,
>)
    requires
        time_den >= 1,
        work_den >= 1,
        forall|i: int| 0 <= i < timestamps@.len() ==> timestamps_wf(#[trigger] timestamps@[i]@),
    ensures
        r@.len() == timestamps@.len(),
        forall|i: int|
            0 <= i < r@.len() ==> {
                let s = #[trigger] r@[i];
                &&& s.wf()
                &&& s.time_den == time_den
                &&& s.work_den == work_den
                &&& s.blocks@.len() == timestamps@[i]@.len()
                &&& forall|j: int|
                    0 <= j < s.blocks@.len() ==> (#[trigger] s.blocks@[j]) == (Block {
                        timestamp: timestamps@[i]@[j],
                        work: work_den,
                    })
            },
{
    let mut result: Vec<BlockSeq> = Vec::new();
    let mut i: usize = 0;
    while i < timestamps.len()
        invariant
            time_den >= 1,
            work_den >= 1,
            forall|t: int| 0 <= t < timestamps@.len() ==> timestamps_wf(#[trigger] timestamps@[t]@),
            0 <= i <= timestamps@.len(),
            result@.len() == i,
            forall|t: int|
                0 <= t < i ==> {
                    let s = #[trigger] result@[t];
                    &&& s.wf()
                    &&& s.time_den == time_den
                    &&& s.work_den == work_den
                    &&& s.blocks@.len() == timestamps@[t]@.len()
                    &&& forall|j: int|
                        0 <= j < s.blocks@.len() ==> (#[trigger] s.blocks@[j]) == (Block {
                            timestamp: timestamps@[t]@[j],
                            work: work_den,
                        })
                },
        decreases timestamps@.len() - i,
    {
        let blocks = get_bitcoin_blocks(&timestamps[i], work_den);
        proof {
            assert(blocks_wf(blocks@));
        }
        result.push(BlockSeq { blocks, time_den, work_den });
        i = i + 1;
    }
    result
}

} // verus!
