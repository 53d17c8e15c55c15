//! The sweep orchestrator.
//!
//! For a Cartesian grid of `(g, gamma)` and a list of `beta` values, the
//! orchestrator rescales the honest blocks and recomputes their trajectories
//! once per `(g, gamma)`, rescales the adversary trajectories once per
//! `beta`, runs the Monte Carlo aggregator, and keeps the minimum latency
//! seen per entry of the chosen reduction axis together with the parameters
//! that achieved it.

use vstd::prelude::*;

use crate::analysis::{
    agg_fits, epsilon_fits, get_monte_carlo_performance, performance_spec, views_of, Performance,
    RATE_DEN,
};
use crate::formatting::{
    block_scale_fits, chain_scale_fits, engine_fits, engine_view, get_monte_carlo_progresses,
    lemma_engine_spec_wf, scale_monte_carlo_blocks, scale_monte_carlo_progresses,
    scaled_blocks_view, scaled_chains_view,
};
use crate::types::{
    frac_lt, frac_lt_u64, lemma_mul_ge_one, lemma_mul_le_mono, BlockSeq, ChainSeq, ChainsView,
    Ratio, TailPolicy, TailStat,
};

verus! {

/// Number of honest blocks pre-sampled per trial.
pub const HONEST_COUNT: usize = 1300;

/// Number of adversary blocks pre-sampled per trial.
pub const ADVERSARY_COUNT: usize = 1300;

/// Which axis the sweep reduces over: one result entry is kept per element
/// of that axis, minimized over the other two.
#[derive(Clone, Copy, Debug, PartialEq, Eq, Structural)]
pub enum ReductionType {
    Beta,
    Gamma,
    G,
}

/// Sweep results for the entropy-work protocol, one entry per element of the
/// reduction axis.
pub struct PoemData {
    pub latency: Vec<TailStat>,
    pub optimal_k: Vec<TailStat>,
    pub optimal_g: Vec<Ratio>,
    pub optimal_gamma: Vec<Ratio>,
    pub throughput: Vec<Ratio>,
    pub max_work: Vec<Ratio>,
    pub max_height: Vec<u64>,
    pub adversary_max_work: Vec<Ratio>,
    pub adversary_max_height: Vec<u64>,
}

/// Sweep results for the unit-work protocol.
pub struct BitcoinData {
    pub latency: Vec<TailStat>,
    pub optimal_k: Vec<TailStat>,
    pub optimal_g: Vec<Ratio>,
    pub throughput: Vec<Ratio>,
    pub max_work: Vec<Ratio>,
    pub max_height: Vec<u64>,
    pub adversary_max_work: Vec<Ratio>,
    pub adversary_max_height: Vec<u64>,
}

/// Both protocols' per-axis results side by side.
pub struct Data {
    pub bitcoin_latencies: Vec<TailStat>,
    pub bitcoin_optimal_k: Vec<TailStat>,
    pub bitcoin_optimal_g: Vec<Ratio>,
    pub bitcoin_throughputs: Vec<Ratio>,
    pub poem_latencies: Vec<TailStat>,
    pub poem_optimal_k: Vec<TailStat>,
    pub poem_optimal_g: Vec<Ratio>,
    pub poem_optimal_gamma: Vec<Ratio>,
    pub poem_throughputs: Vec<Ratio>,
}

/// The mathematical content of a `PoemData`.
pub ghost struct PoemView {
    pub latency: Seq<TailStat>,
    pub optimal_k: Seq<TailStat>,
    pub optimal_g: Seq<Ratio>,
    pub optimal_gamma: Seq<Ratio>,
    pub throughput: Seq<Ratio>,
    pub max_work: Seq<Ratio>,
    pub max_height: Seq<u64>,
    pub adversary_max_work: Seq<Ratio>,
    pub adversary_max_height: Seq<u64>,
}

impl View for PoemData {
    type V = PoemView;

    open spec fn view(&self) -> PoemView {
        PoemView {
            latency: self.latency@,
            optimal_k: self.optimal_k@,
            optimal_g: self.optimal_g@,
            optimal_gamma: self.optimal_gamma@,
            throughput: self.throughput@,
            max_work: self.max_work@,
            max_height: self.max_height@,
            adversary_max_work: self.adversary_max_work@,
            adversary_max_height: self.adversary_max_height@,
        }
    }
}

/// Strict order on aggregated statistics, with infinity never smaller.
pub open spec fn tail_lt_spec(a: TailStat, b: TailStat) -> bool {
    match a {
        TailStat::Infinite => false,
        TailStat::Finite(ar) => match b {
            TailStat::Infinite => true,
            TailStat::Finite(br) => frac_lt(ar.num as int, ar.den as int, br.num as int, br.den as int),
        },
    }
}

/// A finite statistic carries a positive denominator.
pub open spec fn tail_wf(t: TailStat) -> bool {
    t matches TailStat::Finite(r) ==> r.den >= 1
}

/// Executable counterpart of `tail_lt_spec`.
pub fn tail_lt(a: &TailStat, b: &TailStat) -> (r: bool)
    requires
        tail_wf(*a),
        tail_wf(*b),
    ensures
        r == tail_lt_spec(*a, *b),
{
    match a {
        TailStat::Infinite => false,
        TailStat::Finite(ar) => match b {
            TailStat::Infinite => true,
            TailStat::Finite(br) => frac_lt_u64(ar.num, ar.den, br.num, br.den),
        },
    }
}

/// The effective adversary block rate for stake fraction `beta`: the honest
/// rate `g` scaled by `beta / (1 - beta)`.
pub open spec fn g_eff_spec(g: Ratio, beta: Ratio) -> Ratio {
    Ratio { num: (g.num * beta.num) as u64, den: (g.den * (beta.den - beta.num)) as u64 }
}

/// The adversary trajectories derived once from the raw adversary blocks,
/// with no delay: the adversary sees its own chain immediately.
pub open spec fn adv0_views(adv: Seq<BlockSeq>) -> Seq<ChainsView> {
    Seq::new(adv.len(), |i: int| engine_view(adv[i]@, 0))
}

/// One honest trial's trajectory at grid point `(g, gamma)`: blocks rescaled,
/// then run through the engine with one time unit of network delay.
pub open spec fn poem_honest_point(honest: Seq<BlockSeq>, g: Ratio, gamma: Ratio) -> Seq<
    ChainsView,
> {
    Seq::new(
        honest.len(),
        |i: int|
            engine_view(
                scaled_blocks_view(honest[i]@, g, gamma),
                honest[i]@.time_den * g.num,
            ),
    )
}

/// The adversary trajectories rescaled to `(g_eff, gamma)`.
pub open spec fn scaled_adv_point(adv0: Seq<ChainsView>, g_eff: Ratio, gamma: Ratio) -> Seq<
    ChainsView,
> {
    Seq::new(adv0.len(), |i: int| scaled_chains_view(adv0[i], g_eff, gamma))
}

/// The aggregate of one grid point.
pub open spec fn poem_point_perf(
    honest: Seq<BlockSeq>,
    adv0: Seq<ChainsView>,
    epsilon: Ratio,
    policy: TailPolicy,
    g: Ratio,
    gamma: Ratio,
    beta: Ratio,
) -> Performance {
    performance_spec(
        poem_honest_point(honest, g, gamma),
        scaled_adv_point(adv0, g_eff_spec(g, beta), gamma),
        epsilon,
        policy,
    )
}

/// A depth statistic rebased from a scaled work numerator to a plain value:
/// the denominator absorbs the sequence's scaled work unit.
pub open spec fn k_scaled(ks: TailStat, work_den: int) -> TailStat {
    match ks {
        TailStat::Infinite => TailStat::Infinite,
        TailStat::Finite(r) => TailStat::Finite(
            Ratio { num: r.num, den: (r.den * work_den) as u64 },
        ),
    }
}

/// Confirmation latency: the depth statistic divided by the mean work rate,
/// quantized to `RATE_DEN`; infinite when the depth is infinite or the rate
/// is zero.
pub open spec fn latency_of(ks: TailStat, work_den: int, f_work: Ratio) -> TailStat {
    match ks {
        TailStat::Infinite => TailStat::Infinite,
        TailStat::Finite(r) => {
            if f_work.num == 0 {
                TailStat::Infinite
            } else {
                TailStat::Finite(
                    Ratio {
                        num: ((r.num * f_work.den * RATE_DEN) / (r.den * work_den
                            * f_work.num)) as u64,
                        den: RATE_DEN,
                    },
                )
            }
        },
    }
}

/// The latency computation's arithmetic stays in range.
pub open spec fn latency_fits(ks: TailStat, work_den: int, f_work: Ratio) -> bool {
    ks matches TailStat::Finite(r) ==> {
        &&& r.den >= 1
        &&& r.num * f_work.den * RATE_DEN <= u128::MAX
        &&& r.den * work_den * f_work.num <= u128::MAX
        &&& f_work.num >= 1 ==> (r.num * f_work.den * RATE_DEN) / (r.den * work_den * f_work.num)
            <= u64::MAX
    }
}

/// Divides a depth statistic by the mean work rate.
pub fn latency_from(ks: &TailStat, work_den: u64, f_work: &Ratio) -> (r: TailStat)
    requires
        work_den >= 1,
        f_work.wf(),
        latency_fits(*ks, work_den as int, *f_work),
    ensures
        r == latency_of(*ks, work_den as int, *f_work),
        tail_wf(r),
{
    match ks {
        TailStat::Infinite => TailStat::Infinite,
        TailStat::Finite(rat) => {
            if f_work.num == 0 {
                TailStat::Infinite
            } else {
                proof {
                    lemma_mul_le_mono(
                        (rat.num as int) * (f_work.den as int),
                        (rat.num as int) * (f_work.den as int),
                        1,
                        RATE_DEN as int,
                    );
                    lemma_mul_le_mono(
                        (rat.den as int) * (work_den as int),
                        (rat.den as int) * (work_den as int),
                        1,
                        f_work.num as int,
                    );
                    lemma_mul_ge_one(rat.den as int, work_den as int);
                    lemma_mul_ge_one((rat.den as int) * (work_den as int), f_work.num as int);
                }
                let num128 = (rat.num as u128) * (f_work.den as u128) * (RATE_DEN as u128);
                let den128 = (rat.den as u128) * (work_den as u128) * (f_work.num as u128);
                let q = num128 / den128;
                TailStat::Finite(Ratio { num: q as u64, den: RATE_DEN })
            }
        },
    }
}

/// The index of the reduction axis a grid point contributes to.
pub open spec fn reduction_index(rt: ReductionType, beta_i: int, g_i: int, gamma_i: int) -> int {
    match rt {
        ReductionType::Beta => beta_i,
        ReductionType::Gamma => gamma_i,
        ReductionType::G => g_i,
    }
}

/// The number of result entries for the chosen reduction axis.
pub open spec fn data_length_spec(
    rt: ReductionType,
    beta_range: Seq<Ratio>,
    g_range: Seq<Ratio>,
    gamma_range: Seq<Ratio>,
) -> int {
    match rt {
        ReductionType::Beta => beta_range.len() as int,
        ReductionType::Gamma => gamma_range.len() as int,
        ReductionType::G => g_range.len() as int,
    }
}

/// The initial sweep state: infinite latencies and depths, zero parameters.
pub open spec fn poem_init(data_len: int) -> PoemView {
    PoemView {
        latency: Seq::new(data_len as nat, |i: int| TailStat::Infinite),
        optimal_k: Seq::new(data_len as nat, |i: int| TailStat::Infinite),
        optimal_g: Seq::new(data_len as nat, |i: int| Ratio { num: 0, den: 1 }),
        optimal_gamma: Seq::new(data_len as nat, |i: int| Ratio { num: 0, den: 1 }),
        throughput: Seq::new(data_len as nat, |i: int| Ratio { num: 0, den: 1 }),
        max_work: Seq::new(data_len as nat, |i: int| Ratio { num: 0, den: 1 }),
        max_height: Seq::new(data_len as nat, |i: int| 0u64),
        adversary_max_work: Seq::new(data_len as nat, |i: int| Ratio { num: 0, den: 1 }),
        adversary_max_height: Seq::new(data_len as nat, |i: int| 0u64),
    }
}

/// A degenerate grid point: a zero mining rate, a zero stake fraction, or a
/// stake fraction of one or more.  Each would divide by zero in the exact
/// rescaling (an infinite or vanishing effective rate), so such a point is
/// treated as having infinite latency: it is skipped and can never be
/// selected as a minimum.
pub open spec fn degenerate_point(g: Ratio, beta: Ratio) -> bool {
    g.num == 0 || beta.num == 0 || beta.num >= beta.den
}

/// One grid point's effect on the sweep state: a degenerate point leaves the
/// state unchanged; otherwise, if its latency strictly beats the entry of
/// its reduction index, every field of that entry is replaced.
pub open spec fn poem_step(
    state: PoemView,
    honest: Seq<BlockSeq>,
    adv0: Seq<ChainsView>,
    epsilon: Ratio,
    policy: TailPolicy,
    rt: ReductionType,
    beta_range: Seq<Ratio>,
    g_range: Seq<Ratio>,
    gamma_range: Seq<Ratio>,
    gamma_i: int,
    g_i: int,
    beta_i: int,
) -> PoemView {
    let g = g_range[g_i];
    let gamma = gamma_range[gamma_i];
    let beta = beta_range[beta_i];
    let perf = poem_point_perf(honest, adv0, epsilon, policy, g, gamma, beta);
    let wd2 = honest[0]@.work_den * gamma.den;
    let awd2 = adv0[0].work_den * gamma.den;
    let lat = latency_of(perf.k_star, wd2, perf.f_work);
    let ridx = reduction_index(rt, beta_i, g_i, gamma_i);
    if !degenerate_point(g, beta) && 0 <= ridx < state.latency.len() && tail_lt_spec(
        lat,
        state.latency[ridx],
    ) {
        PoemView {
            latency: state.latency.update(ridx, lat),
            optimal_k: state.optimal_k.update(ridx, k_scaled(perf.k_star, wd2)),
            optimal_g: state.optimal_g.update(ridx, g),
            optimal_gamma: state.optimal_gamma.update(ridx, gamma),
            throughput: state.throughput.update(ridx, perf.f_height),
            max_work: state.max_work.update(ridx, Ratio { num: perf.max_work, den: wd2 as u64 }),
            max_height: state.max_height.update(ridx, perf.max_height),
            adversary_max_work: state.adversary_max_work.update(
                ridx,
                Ratio { num: perf.adversary_max_work, den: awd2 as u64 },
            ),
            adversary_max_height: state.adversary_max_height.update(
                ridx,
                perf.adversary_max_height,
            ),
        }
    } else {
        state
    }
}

/// Folds the grid points of one `(gamma, g)` pair from `beta_i` on.
pub open spec fn poem_fold_beta(
    state: PoemView,
    honest: Seq<BlockSeq>,
    adv0: Seq<ChainsView>,
    epsilon: Ratio,
    policy: TailPolicy,
    rt: ReductionType,
    beta_range: Seq<Ratio>,
    g_range: Seq<Ratio>,
    gamma_range: Seq<Ratio>,
    gamma_i: int,
    g_i: int,
    beta_i: int,
) -> PoemView
    decreases beta_range.len() - beta_i,
{
    if beta_i < 0 || beta_i >= beta_range.len() {
        state
    } else {
        poem_fold_beta(
            poem_step(
                state,
                honest,
                adv0,
                epsilon,
                policy,
                rt,
                beta_range,
                g_range,
                gamma_range,
                gamma_i,
                g_i,
                beta_i,
            ),
            honest,
            adv0,
            epsilon,
            policy,
            rt,
            beta_range,
            g_range,
            gamma_range,
            gamma_i,
            g_i,
            beta_i + 1,
        )
    }
}

/// Folds the grid points of one `gamma` from `g_i` on.
pub open spec fn poem_fold_g(
    state: PoemView,
    honest: Seq<BlockSeq>,
    adv0: Seq<ChainsView>,
    epsilon: Ratio,
    policy: TailPolicy,
    rt: ReductionType,
    beta_range: Seq<Ratio>,
    g_range: Seq<Ratio>,
    gamma_range: Seq<Ratio>,
    gamma_i: int,
    g_i: int,
) -> PoemView
    decreases g_range.len() - g_i,
{
    if g_i < 0 || g_i >= g_range.len() {
        state
    } else {
        poem_fold_g(
            poem_fold_beta(
                state,
                honest,
                adv0,
                epsilon,
                policy,
                rt,
                beta_range,
                g_range,
                gamma_range,
                gamma_i,
                g_i,
                0,
            ),
            honest,
            adv0,
            epsilon,
            policy,
            rt,
            beta_range,
            g_range,
            gamma_range,
            gamma_i,
            g_i + 1,
        )
    }
}

/// Folds the whole grid from `gamma_i` on.
pub open spec fn poem_fold_gamma(
    state: PoemView,
    honest: Seq<BlockSeq>,
    adv0: Seq<ChainsView>,
    epsilon: Ratio,
    policy: TailPolicy,
    rt: ReductionType,
    beta_range: Seq<Ratio>,
    g_range: Seq<Ratio>,
    gamma_range: Seq<Ratio>,
    gamma_i: int,
) -> PoemView
    decreases gamma_range.len() - gamma_i,
{
    if gamma_i < 0 || gamma_i >= gamma_range.len() {
        state
    } else {
        poem_fold_gamma(
            poem_fold_g(
                state,
                honest,
                adv0,
                epsilon,
                policy,
                rt,
                beta_range,
                g_range,
                gamma_range,
                gamma_i,
                0,
            ),
            honest,
            adv0,
            epsilon,
            policy,
            rt,
            beta_range,
            g_range,
            gamma_range,
            gamma_i + 1,
        )
    }
}

/// The whole sweep: a pure function of the sampled inputs, the grid, and the
/// chosen policy and reduction axis.
pub open spec fn simulate_poem_spec(
    honest: Seq<BlockSeq>,
    adv: Seq<BlockSeq>,
    epsilon: Ratio,
    beta_range: Seq<Ratio>,
    g_range: Seq<Ratio>,
    gamma_range: Seq<Ratio>,
    rt: ReductionType,
    policy: TailPolicy,
) -> PoemView {
    poem_fold_gamma(
        poem_init(data_length_spec(rt, beta_range, g_range, gamma_range)),
        honest,
        adv0_views(adv),
        epsilon,
        policy,
        rt,
        beta_range,
        g_range,
        gamma_range,
        0,
    )
}

/// The `(g, gamma)`-level arithmetic bounds of one grid column: scaling the
/// honest blocks and running the engine on them stays in range, and every
/// resulting trajectory satisfies the aggregator's bounds.
pub open spec fn poem_pair_ok(honest: Seq<BlockSeq>, g: Ratio, gamma: Ratio) -> bool {
    &&& g.wf()
    &&& g.num >= 1
    &&& gamma.wf()
    &&& forall|i: int|
        0 <= i < honest.len() ==> block_scale_fits(#[trigger] honest[i], g, gamma)
    &&& forall|i: int|
        0 <= i < honest.len() ==> engine_fits(
            scaled_blocks_view(#[trigger] honest[i]@, g, gamma),
            honest[0]@.time_den * g.num,
        )
    &&& forall|i: int|
        0 <= i < honest.len() ==> agg_fits(
            engine_view(
                scaled_blocks_view(#[trigger] honest[i]@, g, gamma),
                honest[0]@.time_den * g.num,
            ),
        )
}

/// The `beta`-level arithmetic bounds of one grid point: the effective rate
/// exists, rescaling the adversary trajectories stays in range, and the
/// latency division stays in range.
pub open spec fn poem_triple_ok(
    honest: Seq<BlockSeq>,
    adv0: Seq<ChainsView>,
    epsilon: Ratio,
    policy: TailPolicy,
    g: Ratio,
    gamma: Ratio,
    beta: Ratio,
) -> bool {
    let geff = g_eff_spec(g, beta);
    let perf = poem_point_perf(honest, adv0, epsilon, policy, g, gamma, beta);
    let wd2 = honest[0]@.work_den * gamma.den;
    &&& beta.wf()
    &&& beta.num >= 1
    &&& beta.num < beta.den
    &&& g.num * beta.num <= u64::MAX
    &&& g.den * (beta.den - beta.num) <= u64::MAX
    &&& forall|i: int| 0 <= i < adv0.len() ==> chain_scale_fits(#[trigger] adv0[i], geff, gamma)
    &&& latency_fits(perf.k_star, wd2, perf.f_work)
    &&& (perf.k_star matches TailStat::Finite(r) ==> r.den * wd2 <= u64::MAX)
}

/// Everything the sweep requires of its inputs: paired trials of uniform
/// units, in-range adversary trajectories, a usable quantile, and in-range
/// arithmetic at every grid point.
pub open spec fn poem_requires(
    honest: Seq<BlockSeq>,
    adv: Seq<BlockSeq>,
    epsilon: Ratio,
    beta_range: Seq<Ratio>,
    g_range: Seq<Ratio>,
    gamma_range: Seq<Ratio>,
    policy: TailPolicy,
) -> bool {
    &&& honest.len() == adv.len()
    &&& 1 <= honest.len() <= 0xFFFF_FFFF
    &&& epsilon.wf()
    &&& epsilon_fits(honest.len() as int, epsilon, policy)
    &&& forall|i: int| 0 <= i < honest.len() ==> (#[trigger] honest[i]).wf()
    &&& forall|i: int| 0 <= i < adv.len() ==> (#[trigger] adv[i]).wf()
    &&& forall|i: int|
        0 <= i < honest.len() ==> (#[trigger] honest[i]).time_den == honest[0].time_den && honest[i].work_den
            == honest[0].work_den
    &&& forall|i: int|
        0 <= i < adv.len() ==> (#[trigger] adv[i]).time_den == adv[0].time_den && adv[i].work_den
            == adv[0].work_den
    &&& forall|i: int| 0 <= i < adv.len() ==> engine_fits((#[trigger] adv[i])@, 0)
    &&& forall|gamma_i: int, g_i: int|
        0 <= gamma_i < gamma_range.len() && 0 <= g_i < g_range.len() && g_range[g_i].num >= 1
            ==> poem_pair_ok(honest, #[trigger] g_range[g_i], #[trigger] gamma_range[gamma_i])
    &&& forall|gamma_i: int, g_i: int, beta_i: int|
        0 <= gamma_i < gamma_range.len() && 0 <= g_i < g_range.len() && 0 <= beta_i
            < beta_range.len() && !degenerate_point(g_range[g_i], beta_range[beta_i])
            ==> poem_triple_ok(
            honest,
            adv0_views(adv),
            epsilon,
            policy,
            #[trigger] g_range[g_i],
            #[trigger] gamma_range[gamma_i],
            #[trigger] beta_range[beta_i],
        )
}

/// A vector of `n` copies of one statistic.
fn make_tail_vec(n: usize, v: TailStat) -> (r: Vec<TailStat>)
    ensures
        r@ == Seq::new(n as nat, |i: int| v),
{
    let mut out: Vec<TailStat> = Vec::new();
    let mut i: usize = 0;
    while i < n
        invariant
            0 <= i <= n,
            out@.len() == i,
            forall|t: int| 0 <= t < i ==> out@[t] == v,
        decreases n - i,
    {
        out.push(v);
        i = i + 1;
    }
    proof {
        assert(out@ =~= Seq::new(n as nat, |i: int| v));
    }
    out
}

/// A vector of `n` copies of one ratio.
fn make_ratio_vec(n: usize, v: Ratio) -> (r: Vec<Ratio>)
    ensures
        r@ == Seq::new(n as nat, |i: int| v),
{
    let mut out: Vec<Ratio> = Vec::new();
    let mut i: usize = 0;
    while i < n
        invariant
            0 <= i <= n,
            out@.len() == i,
            forall|t: int| 0 <= t < i ==> out@[t] == v,
        decreases n - i,
    {
        out.push(v);
        i = i + 1;
    }
    proof {
        assert(out@ =~= Seq::new(n as nat, |i: int| v));
    }
    out
}

/// A vector of `n` zeros.
fn make_u64_vec(n: usize, v: u64) -> (r: Vec<u64>)
    ensures
        r@ == Seq::new(n as nat, |i: int| v),
{
    let mut out: Vec<u64> = Vec::new();
    let mut i: usize = 0;
    while i < n
        invariant
            0 <= i <= n,
            out@.len() == i,
            forall|t: int| 0 <= t < i ==> out@[t] == v,
        decreases n - i,
    {
        out.push(v);
        i = i + 1;
    }
    proof {
        assert(out@ =~= Seq::new(n as nat, |i: int| v));
    }
    out
}

/// A zero mining rate makes every point of its grid column degenerate, so
/// the fold over that column's stake fractions leaves the state unchanged.
proof fn lemma_poem_fold_beta_degenerate(
    state: PoemView,
    honest: Seq<BlockSeq>,
    adv0: Seq<ChainsView>,
    epsilon: Ratio,
    policy: TailPolicy,
    rt: ReductionType,
    beta_range: Seq<Ratio>,
    g_range: Seq<Ratio>,
    gamma_range: Seq<Ratio>,
    gamma_i: int,
    g_i: int,
    beta_i: int,
)
    requires
        0 <= g_i < g_range.len(),
        g_range[g_i].num == 0,
        0 <= beta_i,
    ensures
        poem_fold_beta(
            state,
            honest,
            adv0,
            epsilon,
            policy,
            rt,
            beta_range,
            g_range,
            gamma_range,
            gamma_i,
            g_i,
            beta_i,
        ) == state,
    decreases beta_range.len() - beta_i,
{
    if beta_i < beta_range.len() {
        assert(degenerate_point(g_range[g_i], beta_range[beta_i]));
        lemma_poem_fold_beta_degenerate(
            state,
            honest,
            adv0,
            epsilon,
            policy,
            rt,
            beta_range,
            g_range,
            gamma_range,
            gamma_i,
            g_i,
            beta_i + 1,
        );
    }
}

/// The sweep state as a view, from its nine columns.
pub open spec fn state_view(
    latency: Seq<TailStat>,
    optimal_k: Seq<TailStat>,
    optimal_g: Seq<Ratio>,
    optimal_gamma: Seq<Ratio>,
    throughput: Seq<Ratio>,
    max_work: Seq<Ratio>,
    max_height: Seq<u64>,
    adversary_max_work: Seq<Ratio>,
    adversary_max_height: Seq<u64>,
) -> PoemView {
    PoemView {
        latency,
        optimal_k,
        optimal_g,
        optimal_gamma,
        throughput,
        max_work,
        max_height,
        adversary_max_work,
        adversary_max_height,
    }
}

/// Runs the full sweep for the entropy-work protocol: for each `(g, gamma)`
/// the honest blocks are rescaled and their trajectories recomputed once;
/// within that, for each `beta` the adversary trajectories are rescaled and
/// the aggregator runs; the minimum latency per reduction-axis entry is kept
/// with the parameters that achieved it.
pub fn simulate_poem(
    honest_blocks: &Vec<BlockSeq>,
    adversary_blocks: &Vec<BlockSeq>,
    epsilon: Ratio,
    beta_range: &Vec<Ratio>,
    g_range: &Vec<Ratio>,
    gamma_range: &Vec<Ratio>,
    reduction_type: ReductionType,
    policy: TailPolicy,
) -> (r: PoemData)
    requires
        poem_requires(
            honest_blocks@,
            adversary_blocks@,
            epsilon,
            beta_range@,
            g_range@,
            gamma_range@,
            policy,
        ),
    ensures
        r@ == simulate_poem_spec(
            honest_blocks@,
            adversary_blocks@,
            epsilon,
            beta_range@,
            g_range@,
            gamma_range@,
            reduction_type,
            policy,
        ),
{
    let ghost hseq = honest_blocks@;
    let ghost aseq = adversary_blocks@;
    let ghost adv0 = adv0_views(aseq);
    let ghost brs = beta_range@;
    let ghost grs = g_range@;
    let ghost gms = gamma_range@;
    let ghost spec_result = simulate_poem_spec(
        hseq,
        aseq,
        epsilon,
        brs,
        grs,
        gms,
        reduction_type,
        policy,
    );

    let data_length = match reduction_type {
        ReductionType::Beta => beta_range.len(),
        ReductionType::Gamma => gamma_range.len(),
        ReductionType::G => g_range.len(),
    };

    let mut latency = make_tail_vec(data_length, TailStat::Infinite);
    let mut optimal_k = make_tail_vec(data_length, TailStat::Infinite);
    let mut optimal_g = make_ratio_vec(data_length, Ratio { num: 0, den: 1 });
    let mut optimal_gamma = make_ratio_vec(data_length, Ratio { num: 0, den: 1 });
    let mut throughput = make_ratio_vec(data_length, Ratio { num: 0, den: 1 });
    let mut max_work = make_ratio_vec(data_length, Ratio { num: 0, den: 1 });
    let mut max_height = make_u64_vec(data_length, 0);
    let mut adversary_max_work = make_ratio_vec(data_length, Ratio { num: 0, den: 1 });
    let mut adversary_max_height = make_u64_vec(data_length, 0);
    proof {
        let init = poem_init(data_length as int);
        assert(latency@ =~= init.latency);
        assert(optimal_k@ =~= init.optimal_k);
        assert(optimal_g@ =~= init.optimal_g);
        assert(optimal_gamma@ =~= init.optimal_gamma);
        assert(throughput@ =~= init.throughput);
        assert(max_work@ =~= init.max_work);
        assert(max_height@ =~= init.max_height);
        assert(adversary_max_work@ =~= init.adversary_max_work);
        assert(adversary_max_height@ =~= init.adversary_max_height);
        assert(state_view(
            latency@,
            optimal_k@,
            optimal_g@,
            optimal_gamma@,
            throughput@,
            max_work@,
            max_height@,
            adversary_max_work@,
            adversary_max_height@,
        ) == init);
    }

    let mut original_adversary_progress: Vec<ChainSeq> = Vec::new();
    get_monte_carlo_progresses(&mut original_adversary_progress, adversary_blocks, 0);
    proof {
        assert forall|i: int| 0 <= i < aseq.len() implies (
        #[trigger] original_adversary_progress@[i]).wf() && original_adversary_progress@[i]@
            == adv0[i] by {
            assert(aseq[i].blocks@.len() == adversary_blocks@[i].blocks.len());
            lemma_engine_spec_wf(aseq[i].blocks@, 0);
        }
    }

    let mut scaled_honest: Vec<BlockSeq> = Vec::new();
    let mut honest_progress: Vec<ChainSeq> = Vec::new();
    let mut scaled_adversary_progress: Vec<ChainSeq> = Vec::new();

    let mut gamma_index: usize = 0;
    while gamma_index < gamma_range.len()
        invariant
            poem_requires(hseq, aseq, epsilon, brs, grs, gms, policy),
            hseq == honest_blocks@,
            aseq == adversary_blocks@,
            adv0 == adv0_views(aseq),
            brs == beta_range@,
            grs == g_range@,
            gms == gamma_range@,
            spec_result == simulate_poem_spec(
                hseq,
                aseq,
                epsilon,
                brs,
                grs,
                gms,
                reduction_type,
                policy,
            ),
            data_length == data_length_spec(reduction_type, brs, grs, gms),
            original_adversary_progress@.len() == aseq.len(),
            forall|i: int|
                0 <= i < aseq.len() ==> (#[trigger] original_adversary_progress@[i]).wf()
                    && original_adversary_progress@[i]@ == adv0[i],
            0 <= gamma_index <= gms.len(),
            latency@.len() == data_length,
            optimal_k@.len() == data_length,
            optimal_g@.len() == data_length,
            optimal_gamma@.len() == data_length,
            throughput@.len() == data_length,
            max_work@.len() == data_length,
            max_height@.len() == data_length,
            adversary_max_work@.len() == data_length,
            adversary_max_height@.len() == data_length,
            forall|t: int| 0 <= t < latency@.len() ==> tail_wf(#[trigger] latency@[t]),
            poem_fold_gamma(
                state_view(
                    latency@,
                    optimal_k@,
                    optimal_g@,
                    optimal_gamma@,
                    throughput@,
                    max_work@,
                    max_height@,
                    adversary_max_work@,
                    adversary_max_height@,
                ),
                hseq,
                adv0,
                epsilon,
                policy,
                reduction_type,
                brs,
                grs,
                gms,
                gamma_index as int,
            ) == spec_result,
        decreases gms.len() - gamma_index,
    {
        let gamma = gamma_range[gamma_index];
        let mut g_index: usize = 0;
        while g_index < g_range.len()
            invariant
                poem_requires(hseq, aseq, epsilon, brs, grs, gms, policy),
                hseq == honest_blocks@,
                aseq == adversary_blocks@,
                adv0 == adv0_views(aseq),
                brs == beta_range@,
                grs == g_range@,
                gms == gamma_range@,
                spec_result == simulate_poem_spec(
                    hseq,
                    aseq,
                    epsilon,
                    brs,
                    grs,
                    gms,
                    reduction_type,
                    policy,
                ),
                data_length == data_length_spec(reduction_type, brs, grs, gms),
                original_adversary_progress@.len() == aseq.len(),
                forall|i: int|
                    0 <= i < aseq.len() ==> (#[trigger] original_adversary_progress@[i]).wf()
                        && original_adversary_progress@[i]@ == adv0[i],
                0 <= gamma_index < gms.len(),
                gamma == gms[gamma_index as int],
                0 <= g_index <= grs.len(),
                latency@.len() == data_length,
                optimal_k@.len() == data_length,
                optimal_g@.len() == data_length,
                optimal_gamma@.len() == data_length,
                throughput@.len() == data_length,
                max_work@.len() == data_length,
                max_height@.len() == data_length,
                adversary_max_work@.len() == data_length,
                adversary_max_height@.len() == data_length,
                forall|t: int| 0 <= t < latency@.len() ==> tail_wf(#[trigger] latency@[t]),
                poem_fold_gamma(
                    poem_fold_g(
                        state_view(
                            latency@,
                            optimal_k@,
                            optimal_g@,
                            optimal_gamma@,
                            throughput@,
                            max_work@,
                            max_height@,
                            adversary_max_work@,
                            adversary_max_height@,
                        ),
                        hseq,
                        adv0,
                        epsilon,
                        policy,
                        reduction_type,
                        brs,
                        grs,
                        gms,
                        gamma_index as int,
                        g_index as int,
                    ),
                    hseq,
                    adv0,
                    epsilon,
                    policy,
                    reduction_type,
                    brs,
                    grs,
                    gms,
                    gamma_index + 1,
                ) == spec_result,
            decreases grs.len() - g_index,
        {
            let g = g_range[g_index];
            if g.num >= 1 {
                proof {
                    assert(poem_pair_ok(hseq, g, gamma));
                }
                scale_monte_carlo_blocks(&mut scaled_honest, honest_blocks, g, gamma);
                let delay = scaled_honest[0].time_den;
                let ghost hviews = poem_honest_point(hseq, g, gamma);
                proof {
                    assert(scaled_honest@[0]@ == scaled_blocks_view(hseq[0]@, g, gamma));
                    assert(delay as int == hseq[0]@.time_den * g.num);
                    assert forall|i: int| 0 <= i < hseq.len() implies engine_fits(
                        (#[trigger] scaled_honest@[i])@,
                        delay as int,
                    ) by {
                        assert(scaled_honest@[i]@ == scaled_blocks_view(hseq[i]@, g, gamma));
                        assert(hseq[i].time_den == hseq[0].time_den);
                    }
                }
                proof {
                    assert forall|i: int| 0 <= i < scaled_honest@.len() implies (
                    #[trigger] scaled_honest@[i]).wf() by {
                        assert(honest_blocks@[i].wf());
                    }
                }
                get_monte_carlo_progresses(&mut honest_progress, &scaled_honest, delay);
                proof {
                    assert forall|i: int| 0 <= i < hseq.len() implies (
                    #[trigger] honest_progress@[i]).wf() && honest_progress@[i]@ == hviews[i]
                        && agg_fits(honest_progress@[i]@) by {
                        assert(scaled_honest@[i]@ == scaled_blocks_view(hseq[i]@, g, gamma));
                        assert(hseq[i].time_den == hseq[0].time_den);
                        assert(honest_progress@[i]@ == engine_view(scaled_honest@[i]@, delay as int));
                        assert(scaled_honest@[i].blocks@.len() == scaled_honest@[i].blocks.len());
                        lemma_engine_spec_wf(scaled_honest@[i].blocks@, delay as int);
                        assert(hviews[i] == engine_view(
                            scaled_blocks_view(hseq[i]@, g, gamma),
                            hseq[i]@.time_den * g.num,
                        ));
                        assert(agg_fits(hviews[i]));
                    }
                }

                let mut beta_index: usize = 0;
                while beta_index < beta_range.len()
                    invariant
                        poem_requires(hseq, aseq, epsilon, brs, grs, gms, policy),
                        hseq == honest_blocks@,
                        aseq == adversary_blocks@,
                        adv0 == adv0_views(aseq),
                        brs == beta_range@,
                        grs == g_range@,
                        gms == gamma_range@,
                        spec_result == simulate_poem_spec(
                            hseq,
                            aseq,
                            epsilon,
                            brs,
                            grs,
                            gms,
                            reduction_type,
                            policy,
                        ),
                        data_length == data_length_spec(reduction_type, brs, grs, gms),
                        original_adversary_progress@.len() == aseq.len(),
                        forall|i: int|
                            0 <= i < aseq.len() ==> (#[trigger] original_adversary_progress@[i]).wf()
                                && original_adversary_progress@[i]@ == adv0[i],
                        0 <= gamma_index < gms.len(),
                        gamma == gms[gamma_index as int],
                        0 <= g_index < grs.len(),
                        g == grs[g_index as int],
                        g.num >= 1,
                        0 <= beta_index <= brs.len(),
                        hviews == poem_honest_point(hseq, g, gamma),
                        honest_progress@.len() == hseq.len(),
                        forall|i: int|
                            0 <= i < hseq.len() ==> (#[trigger] honest_progress@[i]).wf()
                                && honest_progress@[i]@ == hviews[i] && agg_fits(
                                honest_progress@[i]@,
                            ),
                        scaled_honest@.len() == hseq.len(),
                        scaled_honest@[0].work_den as int == hseq[0]@.work_den * gms[gamma_index as int].den,
                        latency@.len() == data_length,
                        optimal_k@.len() == data_length,
                        optimal_g@.len() == data_length,
                        optimal_gamma@.len() == data_length,
                        throughput@.len() == data_length,
                        max_work@.len() == data_length,
                        max_height@.len() == data_length,
                        adversary_max_work@.len() == data_length,
                        adversary_max_height@.len() == data_length,
                        forall|t: int| 0 <= t < latency@.len() ==> tail_wf(#[trigger] latency@[t]),
                        poem_fold_gamma(
                            poem_fold_g(
                                poem_fold_beta(
                                    state_view(
                                        latency@,
                                        optimal_k@,
                                        optimal_g@,
                                        optimal_gamma@,
                                        throughput@,
                                        max_work@,
                                        max_height@,
                                        adversary_max_work@,
                                        adversary_max_height@,
                                    ),
                                    hseq,
                                    adv0,
                                    epsilon,
                                    policy,
                                    reduction_type,
                                    brs,
                                    grs,
                                    gms,
                                    gamma_index as int,
                                    g_index as int,
                                    beta_index as int,
                                ),
                                hseq,
                                adv0,
                                epsilon,
                                policy,
                                reduction_type,
                                brs,
                                grs,
                                gms,
                                gamma_index as int,
                                g_index + 1,
                            ),
                            hseq,
                            adv0,
                            epsilon,
                            policy,
                            reduction_type,
                            brs,
                            grs,
                            gms,
                            gamma_index + 1,
                        ) == spec_result,
                    decreases brs.len() - beta_index,
                {
                    let beta = beta_range[beta_index];
                    if beta.num >= 1 && beta.num < beta.den {
                        proof {
                            assert(poem_triple_ok(hseq, adv0, epsilon, policy, g, gamma, beta));
                            lemma_mul_ge_one(g.num as int, beta.num as int);
                            lemma_mul_ge_one(g.den as int, (beta.den - beta.num) as int);
                        }
                        let g_eff = Ratio { num: g.num * beta.num, den: g.den * (beta.den - beta.num) };
                        proof {
                            assert(g_eff == g_eff_spec(g, beta));
                        }
                        scale_monte_carlo_progresses(
                            &mut scaled_adversary_progress,
                            &original_adversary_progress,
                            g_eff,
                            gamma,
                        );
                        let ghost aviews = scaled_adv_point(adv0, g_eff_spec(g, beta), gamma);
                        proof {
                            assert forall|i: int| 0 <= i < aseq.len() implies (
                            #[trigger] scaled_adversary_progress@[i]).wf() && scaled_adversary_progress@[i]@
                                == aviews[i] by {
                                assert(scaled_adversary_progress@[i]@ == scaled_chains_view(
                                    original_adversary_progress@[i]@,
                                    g_eff,
                                    gamma,
                                ));
                            }
                            assert(views_of(honest_progress@) =~= hviews);
                            assert(views_of(scaled_adversary_progress@) =~= aviews);
                        }
                        let perf = get_monte_carlo_performance(
                            &honest_progress,
                            &scaled_adversary_progress,
                            epsilon,
                            policy,
                        );
                        proof {
                            assert(perf == poem_point_perf(hseq, adv0, epsilon, policy, g, gamma, beta));
                        }
                        let wd2 = scaled_honest[0].work_den;
                        let lat = latency_from(&perf.k_star, wd2, &perf.f_work);
                        let reduction_idx = match reduction_type {
                            ReductionType::Beta => beta_index,
                            ReductionType::Gamma => gamma_index,
                            ReductionType::G => g_index,
                        };
                        proof {
                            assert(reduction_idx < data_length);
                        }
                        let ghost prev_state = state_view(
                            latency@,
                            optimal_k@,
                            optimal_g@,
                            optimal_gamma@,
                            throughput@,
                            max_work@,
                            max_height@,
                            adversary_max_work@,
                            adversary_max_height@,
                        );
                        if tail_lt(&lat, &latency[reduction_idx]) {
                            latency[reduction_idx] = lat;
                            let k_val = match perf.k_star {
                                TailStat::Infinite => TailStat::Infinite,
                                TailStat::Finite(rat) => TailStat::Finite(
                                    Ratio { num: rat.num, den: rat.den * wd2 },
                                ),
                            };
                            optimal_k[reduction_idx] = k_val;
                            optimal_g[reduction_idx] = g;
                            optimal_gamma[reduction_idx] = gamma;
                            throughput[reduction_idx] = perf.f_height;
                            max_work[reduction_idx] = Ratio { num: perf.max_work, den: wd2 };
                            max_height[reduction_idx] = perf.max_height;
                            let awd2 = scaled_adversary_progress[0].work_den;
                            proof {
                                assert(scaled_adversary_progress@[0]@ == aviews[0]);
                                assert(awd2 as int == adv0[0].work_den * gamma.den);
                            }
                            adversary_max_work[reduction_idx] = Ratio {
                                num: perf.adversary_max_work,
                                den: awd2,
                            };
                            adversary_max_height[reduction_idx] = perf.adversary_max_height;
                        }
                        proof {
                            let new_state = state_view(
                                latency@,
                                optimal_k@,
                                optimal_g@,
                                optimal_gamma@,
                                throughput@,
                                max_work@,
                                max_height@,
                                adversary_max_work@,
                                adversary_max_height@,
                            );
                            assert(new_state == poem_step(
                                prev_state,
                                hseq,
                                adv0,
                                epsilon,
                                policy,
                                reduction_type,
                                brs,
                                grs,
                                gms,
                                gamma_index as int,
                                g_index as int,
                                beta_index as int,
                            ));
                        }
                    } else {
                        proof {
                            assert(degenerate_point(g, beta));
                            let cur = state_view(
                                latency@,
                                optimal_k@,
                                optimal_g@,
                                optimal_gamma@,
                                throughput@,
                                max_work@,
                                max_height@,
                                adversary_max_work@,
                                adversary_max_height@,
                            );
                            assert(poem_step(
                                cur,
                                hseq,
                                adv0,
                                epsilon,
                                policy,
                                reduction_type,
                                brs,
                                grs,
                                gms,
                                gamma_index as int,
                                g_index as int,
                                beta_index as int,
                            ) == cur);
                        }
                    }
                    beta_index = beta_index + 1;
                }
            } else {
                proof {
                    lemma_poem_fold_beta_degenerate(
                        state_view(
                            latency@,
                            optimal_k@,
                            optimal_g@,
                            optimal_gamma@,
                            throughput@,
                            max_work@,
                            max_height@,
                            adversary_max_work@,
                            adversary_max_height@,
                        ),
                        hseq,
                        adv0,
                        epsilon,
                        policy,
                        reduction_type,
                        brs,
                        grs,
                        gms,
                        gamma_index as int,
                        g_index as int,
                        0,
                    );
                }
            }
            g_index = g_index + 1;
        }
        gamma_index = gamma_index + 1;
    }
    proof {
        assert(poem_fold_gamma(
            state_view(
                latency@,
                optimal_k@,
                optimal_g@,
                optimal_gamma@,
                throughput@,
                max_work@,
                max_height@,
                adversary_max_work@,
                adversary_max_height@,
            ),
            hseq,
            adv0,
            epsilon,
            policy,
            reduction_type,
            brs,
            grs,
            gms,
            gms.len() as int,
        ) == spec_result);
    }
    PoemData {
        latency,
        optimal_k,
        optimal_g,
        optimal_gamma,
        throughput,
        max_work,
        max_height,
        adversary_max_work,
        adversary_max_height,
    }
}

/// Runs the sweep for the unit-work protocol: the same grid walk with no
/// work bonus, reduced per `beta`.
pub fn simulate_bitcoin(
    honest_blocks: &Vec<BlockSeq>,
    adversary_blocks: &Vec<BlockSeq>,
    epsilon: Ratio,
    beta_range: &Vec<Ratio>,
    g_range: &Vec<Ratio>,
    policy: TailPolicy,
) -> (r: BitcoinData)
    requires
        poem_requires(
            honest_blocks@,
            adversary_blocks@,
            epsilon,
            beta_range@,
            g_range@,
            seq![Ratio { num: 0, den: 1 }],
            policy,
        ),
    ensures
        ({
            let v = simulate_poem_spec(
                honest_blocks@,
                adversary_blocks@,
                epsilon,
                beta_range@,
                g_range@,
                seq![Ratio { num: 0, den: 1 }],
                ReductionType::Beta,
                policy,
            );
            &&& r.latency@ == v.latency
            &&& r.optimal_k@ == v.optimal_k
            &&& r.optimal_g@ == v.optimal_g
            &&& r.throughput@ == v.throughput
            &&& r.max_work@ == v.max_work
            &&& r.max_height@ == v.max_height
            &&& r.adversary_max_work@ == v.adversary_max_work
            &&& r.adversary_max_height@ == v.adversary_max_height
        }),
{
    let mut gamma_range: Vec<Ratio> = Vec::new();
    gamma_range.push(Ratio { num: 0, den: 1 });
    proof {
        assert(gamma_range@ =~= seq![Ratio { num: 0, den: 1 }]);
    }
    let poem = simulate_poem(
        honest_blocks,
        adversary_blocks,
        epsilon,
        beta_range,
        g_range,
        &gamma_range,
        ReductionType::Beta,
        policy,
    );
    BitcoinData {
        latency: poem.latency,
        optimal_k: poem.optimal_k,
        optimal_g: poem.optimal_g,
        throughput: poem.throughput,
        max_work: poem.max_work,
        max_height: poem.max_height,
        adversary_max_work: poem.adversary_max_work,
        adversary_max_height: poem.adversary_max_height,
    }
}

/// Re-running the sweep on identical sampled inputs and an identical grid
/// always yields identical results: the scaler, the engine, the analyzer and
/// the aggregator are pure functions of their inputs, so the sweep is one
/// too.
pub proof fn lemma_simulate_poem_idempotent(
    honest: Seq<BlockSeq>,
    adv: Seq<BlockSeq>,
    epsilon: Ratio,
    beta_range: Seq<Ratio>,
    g_range: Seq<Ratio>,
    gamma_range: Seq<Ratio>,
    rt: ReductionType,
    policy: TailPolicy,
    first: PoemView,
    second: PoemView,
)
    requires
        first == simulate_poem_spec(honest, adv, epsilon, beta_range, g_range, gamma_range, rt, policy),
        second == simulate_poem_spec(
            honest,
            adv,
            epsilon,
            beta_range,
            g_range,
            gamma_range,
            rt,
            policy,
        ),
    ensures
        first == second,
{
}

} // verus!
