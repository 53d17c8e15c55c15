use simulation::abstract_simulations::{
    compare_bitcoin_and_poem_one_sample, one_sample_bitcoin_performance,
};
use simulation::analysis::RATE_DEN;
use simulation::sweeps::{latency_per_gamma_fixed_g, optimal_gamma, optimal_gamma_fixed_g};
use simulation::types::{Block, BlockSeq, KValue, Ratio, TailPolicy, TailStat};

fn honest_trial() -> BlockSeq {
    BlockSeq {
        blocks: vec![
            Block { timestamp: 2, work: 1 },
            Block { timestamp: 4, work: 1 },
            Block { timestamp: 6, work: 1 },
        ],
        time_den: 1,
        work_den: 1,
    }
}

fn adversary_trial() -> BlockSeq {
    BlockSeq {
        blocks: vec![Block { timestamp: 1, work: 1 }, Block { timestamp: 10, work: 1 }],
        time_den: 1,
        work_den: 1,
    }
}

#[test]
fn test_one_sample_bitcoin_performance_depth_and_rate() {
    let (k, f) = one_sample_bitcoin_performance(
        &honest_trial(),
        &adversary_trial(),
        Ratio { num: 1, den: 1 },
        Ratio { num: 1, den: 2 },
    );
    assert_eq!(k, KValue::Finite(2));
    // Final honest work 3 over the adversary's final timestamp 10.
    assert_eq!(f, Ratio { num: 3, den: 10 });
}

#[test]
fn test_compare_bitcoin_and_poem_one_sample_depths() {
    let (bitcoin_k, poem_k) = compare_bitcoin_and_poem_one_sample(
        &honest_trial(),
        &adversary_trial(),
        &honest_trial(),
        &adversary_trial(),
        Ratio { num: 1, den: 1 },
        Ratio { num: 1, den: 2 },
        Ratio { num: 1, den: 1 },
    );
    assert_eq!(bitcoin_k, KValue::Finite(2));
    // With a unit bonus the same draws double every work step, so the
    // surviving depth doubles too.
    assert_eq!(poem_k, KValue::Finite(4));
}

#[test]
fn test_latency_per_gamma_fixed_g_rows() {
    let honest = vec![honest_trial()];
    let adversary = vec![adversary_trial()];
    let beta_range = vec![Ratio { num: 1, den: 2 }];
    let gamma_range = vec![Ratio { num: 0, den: 1 }, Ratio { num: 1, den: 1 }];
    let rows = latency_per_gamma_fixed_g(
        &honest,
        &adversary,
        Ratio { num: 1, den: 10 },
        Ratio { num: 1, den: 1 },
        &beta_range,
        &gamma_range,
        TailPolicy::ExpectedShortfall,
    );
    assert_eq!(rows.len(), 2);
    // Both bonuses leave the depth-to-rate ratio at four time units here.
    let four = TailStat::Finite(Ratio { num: 4 * RATE_DEN, den: RATE_DEN });
    assert_eq!(rows[0], vec![four]);
    assert_eq!(rows[1], vec![four]);
}

#[test]
fn test_optimal_gamma_fixed_g_prefers_earlier_tie() {
    let honest = vec![honest_trial()];
    let adversary = vec![adversary_trial()];
    let beta_range = vec![Ratio { num: 1, den: 2 }];
    let gamma_range = vec![Ratio { num: 0, den: 1 }, Ratio { num: 1, den: 1 }];
    let (gammas, latencies) = optimal_gamma_fixed_g(
        &honest,
        &adversary,
        Ratio { num: 1, den: 10 },
        Ratio { num: 1, den: 1 },
        &beta_range,
        &gamma_range,
        TailPolicy::ExpectedShortfall,
    );
    assert_eq!(gammas, vec![Ratio { num: 0, den: 1 }]);
    assert_eq!(latencies, vec![TailStat::Finite(Ratio { num: 4 * RATE_DEN, den: RATE_DEN })]);
}

#[test]
fn test_optimal_gamma_per_g() {
    let honest = vec![honest_trial()];
    let adversary = vec![adversary_trial()];
    let g_range = vec![Ratio { num: 1, den: 1 }];
    let gamma_range = vec![Ratio { num: 0, den: 1 }];
    let data = optimal_gamma(
        &honest,
        &adversary,
        Ratio { num: 1, den: 10 },
        Ratio { num: 1, den: 2 },
        &g_range,
        &gamma_range,
        TailPolicy::ExpectedShortfall,
    );
    assert_eq!(data.optimal_gamma, vec![Ratio { num: 0, den: 1 }]);
    assert_eq!(data.latency, vec![TailStat::Finite(Ratio { num: 4 * RATE_DEN, den: RATE_DEN })]);
}
