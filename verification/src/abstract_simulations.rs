//! Single-sample experiments: one honest and one adversary block sequence,
//! scaled to a configuration and compared once.
//!
//! These are the smallest end-to-end uses of the pipeline: scale, derive the
//! weight-improvement trajectories, and compute the critical depth — without
//! the Monte Carlo aggregation or the grid sweep.

use vstd::prelude::*;

use crate::analysis::{get_k, k_spec};
use crate::formatting::{
    block_scale_fits, engine_fits, engine_view, get_progresses, lemma_engine_spec_wf,
    scale_blocks, scaled_blocks_view,
};
use crate::simulations::g_eff_spec;
use crate::types::{
    lemma_mul_ge_one, BlockSeq, Chain, ChainSeq, ChainsView, KValue, Ratio,
};

verus! {

/// The trajectory one role's raw blocks produce at configuration
/// `(rate, gamma)` under `delay` time units of network delay.
pub open spec fn one_sample_view(blocks: BlockSeq, rate: Ratio, gamma: Ratio, delay: int) -> ChainsView {
    engine_view(
        scaled_blocks_view(blocks@, rate, gamma),
        delay * (blocks@.time_den * rate.num),
    )
}

/// The critical depth of a single trial at configuration `(g, beta, gamma)`:
/// the honest role runs under one time unit of delay, the adversary under
/// none.
pub open spec fn one_sample_k_spec(
    honest: BlockSeq,
    adversary: BlockSeq,
    g: Ratio,
    beta: Ratio,
    gamma: Ratio,
) -> KValue {
    k_spec(
        one_sample_view(honest, g, gamma, 1),
        one_sample_view(adversary, g_eff_spec(g, beta), gamma, 0),
    )
}

/// Arithmetic bounds for one single-sample run.
pub open spec fn one_sample_ok(
    honest: BlockSeq,
    adversary: BlockSeq,
    g: Ratio,
    beta: Ratio,
    gamma: Ratio,
) -> bool {
    let geff = g_eff_spec(g, beta);
    &&& honest.wf()
    &&& adversary.wf()
    &&& g.wf()
    &&& g.num >= 1
    &&& gamma.wf()
    &&& beta.wf()
    &&& beta.num >= 1
    &&& beta.num < beta.den
    &&& g.num * beta.num <= u64::MAX
    &&& g.den * (beta.den - beta.num) <= u64::MAX
    &&& block_scale_fits(honest, g, gamma)
    &&& block_scale_fits(adversary, geff, gamma)
    &&& engine_fits(scaled_blocks_view(honest@, g, gamma), honest@.time_den * g.num)
    &&& engine_fits(scaled_blocks_view(adversary@, geff, gamma), 0)
}

/// Scales one role's blocks and derives its trajectory.
fn one_sample_progress(blocks: &BlockSeq, rate: Ratio, gamma: Ratio, delayed: bool) -> (r:
    ChainSeq)
    requires
        blocks.wf(),
        rate.wf(),
        rate.num >= 1,
        gamma.wf(),
        block_scale_fits(*blocks, rate, gamma),
        engine_fits(
            scaled_blocks_view(blocks@, rate, gamma),
            if delayed {
                blocks@.time_den * rate.num
            } else {
                0
            },
        ),
    ensures
        r.wf(),
        r@ == one_sample_view(*blocks, rate, gamma, if delayed { 1int } else { 0int }),
{
    let mut scaled = BlockSeq { blocks: Vec::new(), time_den: 1, work_den: 1 };
    scale_blocks(&mut scaled, blocks, rate, gamma);
    let delay: u64 = if delayed {
        scaled.time_den
    } else {
        0
    };
    let mut chains: Vec<Chain> = Vec::new();
    proof {
        assert(scaled@ == scaled_blocks_view(blocks@, rate, gamma));
        assert(scaled@.blocks == scaled.blocks@);
        assert(scaled.blocks@.len() == scaled.blocks.len());
        if delayed {
            assert(delay as int == 1 * (blocks@.time_den * rate.num));
        } else {
            assert(delay as int == 0 * (blocks@.time_den * rate.num)) by (nonlinear_arith)
                requires
                    delay == 0,
            ;
        }
        lemma_engine_spec_wf(scaled.blocks@, delay as int);
    }
    get_progresses(&mut chains, &scaled.blocks, delay);
    ChainSeq { chains, time_den: scaled.time_den, work_den: scaled.work_den }
}

/// One unit-work trial: the critical depth `k` at `(g, beta)` together with
/// the ratio of the honest final work to the adversary's final timestamp.
pub fn one_sample_bitcoin_performance(
    honest_blocks: &BlockSeq,
    adversary_blocks: &BlockSeq,
    g: Ratio,
    beta: Ratio,
) -> (r: (KValue, Ratio))
    requires
        one_sample_ok(*honest_blocks, *adversary_blocks, g, beta, Ratio { num: 0, den: 1 }),
        one_sample_view(
            *adversary_blocks,
            g_eff_spec(g, beta),
            Ratio { num: 0, den: 1 },
            0,
        ).chains.len() >= 2,
        ({
            let hv = one_sample_view(*honest_blocks, g, Ratio { num: 0, den: 1 }, 1);
            let av = one_sample_view(
                *adversary_blocks,
                g_eff_spec(g, beta),
                Ratio { num: 0, den: 1 },
                0,
            );
            &&& hv.chains.last().work * av.time_den <= u64::MAX
            &&& av.chains.last().timestamp * hv.work_den <= u64::MAX
        }),
    ensures
        r.0 == one_sample_k_spec(
            *honest_blocks,
            *adversary_blocks,
            g,
            beta,
            Ratio { num: 0, den: 1 },
        ),
        ({
            let hv = one_sample_view(*honest_blocks, g, Ratio { num: 0, den: 1 }, 1);
            let av = one_sample_view(
                *adversary_blocks,
                g_eff_spec(g, beta),
                Ratio { num: 0, den: 1 },
                0,
            );
            r.1 == Ratio {
                num: (hv.chains.last().work * av.time_den) as u64,
                den: (av.chains.last().timestamp * hv.work_den) as u64,
            }
        }),
{
    let gamma = Ratio { num: 0, den: 1 };
    proof {
        lemma_mul_ge_one(g.num as int, beta.num as int);
        lemma_mul_ge_one(g.den as int, (beta.den - beta.num) as int);
    }
    let g_eff = Ratio { num: g.num * beta.num, den: g.den * (beta.den - beta.num) };
    proof {
        assert(g_eff == g_eff_spec(g, beta));
    }
    let honest_work_progresses = one_sample_progress(honest_blocks, g, gamma, true);
    let adversary_work_progresses = one_sample_progress(adversary_blocks, g_eff, gamma, false);
    let k = get_k(&honest_work_progresses, &adversary_work_progresses);

    let h_last = honest_work_progresses.chains[honest_work_progresses.chains.len() - 1];
    let a_last = adversary_work_progresses.chains[adversary_work_progresses.chains.len() - 1];
    proof {
        assert(h_last == honest_work_progresses@.chains.last());
        assert(a_last == adversary_work_progresses@.chains.last());
        assert(adversary_work_progresses@.chains[0].timestamp < a_last.timestamp);
    }
    let f = Ratio {
        num: h_last.work * adversary_work_progresses.time_den,
        den: a_last.timestamp * honest_work_progresses.work_den,
    };
    (k, f)
}

/// One trial of each protocol on common timestamps: the unit-work critical
/// depth next to the entropy-work critical depth at `(g, beta, gamma)`.
pub fn compare_bitcoin_and_poem_one_sample(
    bitcoin_honest_blocks: &BlockSeq,
    bitcoin_adversary_blocks: &BlockSeq,
    poem_honest_blocks: &BlockSeq,
    poem_adversary_blocks: &BlockSeq,
    g: Ratio,
    beta: Ratio,
    gamma: Ratio,
) -> (r: (KValue, KValue))
    requires
        one_sample_ok(
            *bitcoin_honest_blocks,
            *bitcoin_adversary_blocks,
            g,
            beta,
            Ratio { num: 0, den: 1 },
        ),
        one_sample_ok(*poem_honest_blocks, *poem_adversary_blocks, g, beta, gamma),
    ensures
        r.0 == one_sample_k_spec(
            *bitcoin_honest_blocks,
            *bitcoin_adversary_blocks,
            g,
            beta,
            Ratio { num: 0, den: 1 },
        ),
        r.1 == one_sample_k_spec(*poem_honest_blocks, *poem_adversary_blocks, g, beta, gamma),
{
    proof {
        lemma_mul_ge_one(g.num as int, beta.num as int);
        lemma_mul_ge_one(g.den as int, (beta.den - beta.num) as int);
    }
    let g_eff = Ratio { num: g.num * beta.num, den: g.den * (beta.den - beta.num) };
    proof {
        assert(g_eff == g_eff_spec(g, beta));
    }
    let zero = Ratio { num: 0, den: 1 };
    let bitcoin_honest = one_sample_progress(bitcoin_honest_blocks, g, zero, true);
    let bitcoin_adversary = one_sample_progress(bitcoin_adversary_blocks, g_eff, zero, false);
    let poem_honest = one_sample_progress(poem_honest_blocks, g, gamma, true);
    let poem_adversary = one_sample_progress(poem_adversary_blocks, g_eff, gamma, false);
    let bitcoin_k = get_k(&bitcoin_honest, &bitcoin_adversary);
    let poem_k = get_k(&poem_honest, &poem_adversary);
    (bitcoin_k, poem_k)
}

} // verus!
