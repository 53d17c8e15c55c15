use simulation::analysis::RATE_DEN;
use simulation::simulations::{simulate_bitcoin, simulate_poem, ReductionType};
use simulation::types::{Block, BlockSeq, Ratio, TailPolicy, TailStat};

fn honest_trial() -> BlockSeq {
    BlockSeq {
        blocks: vec![
            Block { timestamp: 2, work: 1 },
            Block { timestamp: 4, work: 1 },
            Block { timestamp: 6, work: 1 },
        ],
        time_den: 1,
        work_den: 1,
    }
}

fn adversary_trial() -> BlockSeq {
    BlockSeq {
        blocks: vec![Block { timestamp: 1, work: 1 }, Block { timestamp: 10, work: 1 }],
        time_den: 1,
        work_den: 1,
    }
}

#[test]
fn test_simulate_poem_single_point() {
    let honest = vec![honest_trial()];
    let adversary = vec![adversary_trial()];
    let beta_range = vec![Ratio { num: 1, den: 2 }];
    let g_range = vec![Ratio { num: 1, den: 1 }];
    let gamma_range = vec![Ratio { num: 0, den: 1 }];
    let data = simulate_poem(
        &honest,
        &adversary,
        Ratio { num: 1, den: 10 },
        &beta_range,
        &g_range,
        &gamma_range,
        ReductionType::Beta,
        TailPolicy::ExpectedShortfall,
    );
    // One trial: honest trajectory reaches work 3 at time 6 under one unit
    // of delay; the adversary races to work 1 by time 1, giving depth 2.
    // Latency = 2 / (3/6) = 4, quantized to RATE_DEN.
    assert_eq!(data.latency, vec![TailStat::Finite(Ratio { num: 4 * RATE_DEN, den: RATE_DEN })]);
    assert_eq!(data.optimal_k, vec![TailStat::Finite(Ratio { num: 2, den: 1 })]);
    assert_eq!(data.optimal_g, vec![Ratio { num: 1, den: 1 }]);
    assert_eq!(data.optimal_gamma, vec![Ratio { num: 0, den: 1 }]);
    let height_rate = 3 * RATE_DEN / 6;
    assert_eq!(data.throughput, vec![Ratio { num: height_rate, den: RATE_DEN }]);
    assert_eq!(data.max_work, vec![Ratio { num: 3, den: 1 }]);
    assert_eq!(data.max_height, vec![3]);
    assert_eq!(data.adversary_max_work, vec![Ratio { num: 2, den: 1 }]);
    assert_eq!(data.adversary_max_height, vec![2]);
}

#[test]
fn test_simulate_poem_skips_degenerate_points() {
    // A zero mining rate, a zero stake fraction, or a stake fraction of one
    // would divide by zero when rescaling; such grid entries are skipped as
    // infinitely slow and never displace a finite minimum (and, under a
    // beta reduction, their own entries stay infinite).
    let honest = vec![honest_trial()];
    let adversary = vec![adversary_trial()];
    let beta_range = vec![
        Ratio { num: 0, den: 2 },
        Ratio { num: 1, den: 2 },
        Ratio { num: 2, den: 2 },
    ];
    let g_range = vec![Ratio { num: 0, den: 1 }, Ratio { num: 1, den: 1 }];
    let gamma_range = vec![Ratio { num: 0, den: 1 }];
    let data = simulate_poem(
        &honest,
        &adversary,
        Ratio { num: 1, den: 10 },
        &beta_range,
        &g_range,
        &gamma_range,
        ReductionType::Beta,
        TailPolicy::ExpectedShortfall,
    );
    assert_eq!(data.latency[0], TailStat::Infinite);
    assert_eq!(data.latency[2], TailStat::Infinite);
    // The well-formed point is evaluated exactly as in the clean sweep.
    assert_eq!(
        data.latency[1],
        TailStat::Finite(Ratio { num: 4 * RATE_DEN, den: RATE_DEN })
    );
    assert_eq!(data.optimal_g[1], Ratio { num: 1, den: 1 });
}

#[test]
fn test_simulate_poem_idempotent() {
    // Re-running the sweep on identical sampled inputs and an identical grid
    // yields identical optima: every stage is a pure function of its inputs.
    let honest = vec![honest_trial(), honest_trial()];
    let adversary = vec![adversary_trial(), adversary_trial()];
    let beta_range = vec![Ratio { num: 1, den: 2 }, Ratio { num: 1, den: 4 }];
    let g_range = vec![Ratio { num: 1, den: 1 }, Ratio { num: 2, den: 1 }];
    let gamma_range = vec![Ratio { num: 0, den: 1 }, Ratio { num: 1, den: 2 }];
    let epsilon = Ratio { num: 1, den: 10 };
    let first = simulate_poem(
        &honest,
        &adversary,
        epsilon,
        &beta_range,
        &g_range,
        &gamma_range,
        ReductionType::Beta,
        TailPolicy::ExpectedShortfall,
    );
    let second = simulate_poem(
        &honest,
        &adversary,
        epsilon,
        &beta_range,
        &g_range,
        &gamma_range,
        ReductionType::Beta,
        TailPolicy::ExpectedShortfall,
    );
    assert_eq!(first.latency, second.latency);
    assert_eq!(first.optimal_k, second.optimal_k);
    assert_eq!(first.optimal_g, second.optimal_g);
    assert_eq!(first.optimal_gamma, second.optimal_gamma);
    assert_eq!(first.throughput, second.throughput);
    assert_eq!(first.max_work, second.max_work);
    assert_eq!(first.max_height, second.max_height);
    assert_eq!(first.adversary_max_work, second.adversary_max_work);
    assert_eq!(first.adversary_max_height, second.adversary_max_height);
}

#[test]
fn test_simulate_bitcoin_matches_zero_bonus_poem() {
    let honest = vec![honest_trial()];
    let adversary = vec![adversary_trial()];
    let beta_range = vec![Ratio { num: 1, den: 2 }];
    let g_range = vec![Ratio { num: 1, den: 1 }];
    let gamma_range = vec![Ratio { num: 0, den: 1 }];
    let epsilon = Ratio { num: 1, den: 10 };
    let bitcoin = simulate_bitcoin(
        &honest,
        &adversary,
        epsilon,
        &beta_range,
        &g_range,
        TailPolicy::ExpectedShortfall,
    );
    let poem = simulate_poem(
        &honest,
        &adversary,
        epsilon,
        &beta_range,
        &g_range,
        &gamma_range,
        ReductionType::Beta,
        TailPolicy::ExpectedShortfall,
    );
    assert_eq!(bitcoin.latency, poem.latency);
    assert_eq!(bitcoin.optimal_k, poem.optimal_k);
    assert_eq!(bitcoin.optimal_g, poem.optimal_g);
    assert_eq!(bitcoin.throughput, poem.throughput);
    assert_eq!(bitcoin.max_work, poem.max_work);
    assert_eq!(bitcoin.max_height, poem.max_height);
    assert_eq!(bitcoin.adversary_max_work, poem.adversary_max_work);
    assert_eq!(bitcoin.adversary_max_height, poem.adversary_max_height);
}
