//! Reduced sweeps: fixed-parameter slices of the full grid walk.
//!
//! Each of these is the grid sweep with one axis pinned to a single value,
//! reported along a different axis.  They reuse the orchestrator rather than
//! re-walking the grid themselves.

use vstd::prelude::*;

use crate::simulations::{
    poem_requires, simulate_poem, simulate_poem_spec, PoemData, ReductionType,
};
use crate::types::{BlockSeq, Ratio, TailPolicy, TailStat};

verus! {

/// For a fixed `g`, the latency of every `(gamma, beta)` pair: one row per
/// `gamma`, one entry per `beta`.
pub fn latency_per_gamma_fixed_g(
    honest_blocks: &Vec<BlockSeq>,
    adversary_blocks: &Vec<BlockSeq>,
    epsilon: Ratio,
    g: Ratio,
    beta_range: &Vec<Ratio>,
    gamma_range: &Vec<Ratio>,
    policy: TailPolicy,
) -> (r: Vec<Vec<TailStat>>)
    requires
        forall|t: int|
            0 <= t < gamma_range@.len() ==> poem_requires(
                honest_blocks@,
                adversary_blocks@,
                epsilon,
                beta_range@,
                seq![g],
                seq![#[trigger] gamma_range@[t]],
                policy,
            ),
    ensures
        r@.len() == gamma_range@.len(),
        forall|t: int|
            0 <= t < gamma_range@.len() ==> (#[trigger] r@[t])@ == simulate_poem_spec(
                honest_blocks@,
                adversary_blocks@,
                epsilon,
                beta_range@,
                seq![g],
                seq![gamma_range@[t]],
                ReductionType::Beta,
                policy,
            ).latency,
{
    let mut g_single: Vec<Ratio> = Vec::new();
    g_single.push(g);
    proof {
        assert(g_single@ =~= seq![g]);
    }
    let mut result: Vec<Vec<TailStat>> = Vec::new();
    let mut t: usize = 0;
    while t < gamma_range.len()
        invariant
            g_single@ == seq![g],
            forall|u: int|
                0 <= u < gamma_range@.len() ==> poem_requires(
                    honest_blocks@,
                    adversary_blocks@,
                    epsilon,
                    beta_range@,
                    seq![g],
                    seq![#[trigger] gamma_range@[u]],
                    policy,
                ),
            0 <= t <= gamma_range@.len(),
            result@.len() == t,
            forall|u: int|
                0 <= u < t ==> (#[trigger] result@[u])@ == simulate_poem_spec(
                    honest_blocks@,
                    adversary_blocks@,
                    epsilon,
                    beta_range@,
                    seq![g],
                    seq![gamma_range@[u]],
                    ReductionType::Beta,
                    policy,
                ).latency,
        decreases gamma_range@.len() - t,
    {
        let mut gamma_single: Vec<Ratio> = Vec::new();
        gamma_single.push(gamma_range[t]);
        proof {
            assert(gamma_single@ =~= seq![gamma_range@[t as int]]);
        }
        let data = simulate_poem(
            honest_blocks,
            adversary_blocks,
            epsilon,
            beta_range,
            &g_single,
            &gamma_single,
            ReductionType::Beta,
            policy,
        );
        result.push(data.latency);
        t = t + 1;
    }
    result
}

/// For a fixed `g`, the bonus achieving the least latency per `beta`, with
/// that latency.
pub fn optimal_gamma_fixed_g(
    honest_blocks: &Vec<BlockSeq>,
    adversary_blocks: &Vec<BlockSeq>,
    epsilon: Ratio,
    g: Ratio,
    beta_range: &Vec<Ratio>,
    gamma_range: &Vec<Ratio>,
    policy: TailPolicy,
) -> (r: (Vec<Ratio>, Vec<TailStat>))
    requires
        poem_requires(
            honest_blocks@,
            adversary_blocks@,
            epsilon,
            beta_range@,
            seq![g],
            gamma_range@,
            policy,
        ),
    ensures
        ({
            let v = simulate_poem_spec(
                honest_blocks@,
                adversary_blocks@,
                epsilon,
                beta_range@,
                seq![g],
                gamma_range@,
                ReductionType::Beta,
                policy,
            );
            &&& r.0@ == v.optimal_gamma
            &&& r.1@ == v.latency
        }),
{
    let mut g_single: Vec<Ratio> = Vec::new();
    g_single.push(g);
    proof {
        assert(g_single@ =~= seq![g]);
    }
    let data = simulate_poem(
        honest_blocks,
        adversary_blocks,
        epsilon,
        beta_range,
        &g_single,
        gamma_range,
        ReductionType::Beta,
        policy,
    );
    (data.optimal_gamma, data.latency)
}

/// For a fixed `beta`, the bonus achieving the least latency per `g`.
pub fn optimal_gamma(
    honest_blocks: &Vec<BlockSeq>,
    adversary_blocks: &Vec<BlockSeq>,
    epsilon: Ratio,
    beta: Ratio,
    g_range: &Vec<Ratio>,
    gamma_range: &Vec<Ratio>,
    policy: TailPolicy,
) -> (r: PoemData)
    requires
        poem_requires(
            honest_blocks@,
            adversary_blocks@,
            epsilon,
            seq![beta],
            g_range@,
            gamma_range@,
            policy,
        ),
    ensures
        r@ == simulate_poem_spec(
            honest_blocks@,
            adversary_blocks@,
            epsilon,
            seq![beta],
            g_range@,
            gamma_range@,
            ReductionType::G,
            policy,
        ),
{
    let mut beta_single: Vec<Ratio> = Vec::new();
    beta_single.push(beta);
    proof {
        assert(beta_single@ =~= seq![beta]);
    }
    simulate_poem(
        honest_blocks,
        adversary_blocks,
        epsilon,
        &beta_single,
        g_range,
        gamma_range,
        ReductionType::G,
        policy,
    )
}

} // verus!
