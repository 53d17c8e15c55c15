use simulation::analysis::{
    get_expected_shortfall, get_interpolated_k_star, get_k, get_monte_carlo_performance,
    get_performance, sort_k_values, test_get_performance, RATE_DEN,
};
use simulation::serial_simulations;
use simulation::types::{Chain, ChainSeq, KValue, Ratio, TailPolicy, TailStat};

fn chain_seq(records: &[(u64, u64)], work_den: u64) -> ChainSeq {
    // Each fixture starts at genesis; heights count the records.
    let mut chains = vec![Chain { timestamp: 0, work: 0, height: 0, arrival_time: 0 }];
    for (h, &(t, w)) in records.iter().enumerate() {
        chains.push(Chain { timestamp: t, work: w, height: (h + 1) as u64, arrival_time: 0 });
    }
    ChainSeq { chains, time_den: 1, work_den }
}

#[test]
fn abstract_simulations_test_get_k() {
    // Adversary gets in-front at one point but then honest recover
    let honest_sample = chain_seq(&[(1, 2), (3, 4), (4, 6)], 1);
    let adversary_sample = chain_seq(&[(2, 3), (5, 4), (6, 5)], 1);
    assert_eq!(get_k(&honest_sample, &adversary_sample), KValue::Finite(4));

    // Adversary gets in-front for a while but then honest recovers
    let honest_sample = chain_seq(&[(1, 2), (4, 3), (5, 6)], 1);
    let adversary_sample = chain_seq(&[(2, 3), (3, 4), (6, 5)], 1);
    assert_eq!(get_k(&honest_sample, &adversary_sample), KValue::Finite(6));

    // Adversary gets in-front and stays in-front
    let honest_sample = chain_seq(&[(2, 1), (3, 2), (5, 4)], 1);
    let adversary_sample = chain_seq(&[(2, 2), (3, 3), (4, 4)], 1);
    assert_eq!(get_k(&honest_sample, &adversary_sample), KValue::Infinite);

    // Honest are in-front at first but then adversary surpasses them
    let honest_sample = chain_seq(&[(1, 2), (4, 3), (6, 4)], 1);
    let adversary_sample = chain_seq(&[(2, 1), (3, 3), (5, 5)], 1);
    assert_eq!(get_k(&honest_sample, &adversary_sample), KValue::Infinite);

    // Adversary reaches equal work but honest surpasses them after
    let honest_sample = chain_seq(&[(1, 2), (3, 4), (5, 6)], 1);
    let adversary_sample = chain_seq(&[(2, 3), (4, 4), (6, 5)], 1);
    assert_eq!(get_k(&honest_sample, &adversary_sample), KValue::Finite(6));
}

#[test]
fn test_get_k_timestamp_tie() {
    // The adversary's record at timestamp 5 ties the honest improvement at
    // timestamp 5 and must not count as preceding it, so the race ends at
    // depth 4 rather than resetting at the tied instant.
    let honest_sample = chain_seq(&[(1, 2), (3, 4), (5, 6)], 1);
    let adversary_sample = chain_seq(&[(2, 3), (5, 4), (6, 5)], 1);
    assert_eq!(get_k(&honest_sample, &adversary_sample), KValue::Finite(4));
}

#[test]
fn analysis_test_get_k() {
    let honest_sample = chain_seq(&[(1, 2), (3, 4), (4, 6)], 1);
    let adversary_sample = chain_seq(&[(2, 3), (5, 4), (6, 5)], 1);
    assert_eq!(
        get_performance(&honest_sample, &adversary_sample),
        (KValue::Finite(4), Ratio { num: 6, den: 4 }, Ratio { num: 3, den: 4 })
    );

    let honest_sample = chain_seq(&[(1, 2), (4, 3), (5, 6)], 1);
    let adversary_sample = chain_seq(&[(2, 3), (3, 4), (6, 5)], 1);
    assert_eq!(
        get_performance(&honest_sample, &adversary_sample),
        (KValue::Finite(6), Ratio { num: 6, den: 5 }, Ratio { num: 3, den: 5 })
    );

    let honest_sample = chain_seq(&[(2, 1), (3, 2), (5, 4)], 1);
    let adversary_sample = chain_seq(&[(2, 2), (3, 3), (4, 4)], 1);
    assert_eq!(
        get_performance(&honest_sample, &adversary_sample),
        (KValue::Infinite, Ratio { num: 4, den: 5 }, Ratio { num: 3, den: 5 })
    );

    let honest_sample = chain_seq(&[(1, 2), (4, 3), (6, 4)], 1);
    let adversary_sample = chain_seq(&[(2, 1), (3, 3), (5, 5)], 1);
    assert_eq!(
        get_performance(&honest_sample, &adversary_sample),
        (KValue::Infinite, Ratio { num: 4, den: 6 }, Ratio { num: 3, den: 6 })
    );

    let honest_sample = chain_seq(&[(1, 2), (3, 4), (5, 6)], 1);
    let adversary_sample = chain_seq(&[(2, 3), (4, 4), (6, 5)], 1);
    assert_eq!(
        get_performance(&honest_sample, &adversary_sample),
        (KValue::Finite(6), Ratio { num: 6, den: 5 }, Ratio { num: 3, den: 5 })
    );
}

#[test]
fn serial_simulations_test_get_k() {
    // Work values are in halves so that a half-unit draw stays exact.
    let honest_sample = chain_seq(&[(2, 2), (3, 4)], 2);
    let adversary_sample = chain_seq(&[(1, 2), (4, 4)], 2);
    assert_eq!(
        serial_simulations::get_k(&honest_sample, &adversary_sample),
        Some(KValue::Finite(4))
    );

    let honest_sample = chain_seq(&[(1, 4), (4, 6)], 2);
    let adversary_sample = chain_seq(&[(2, 2), (3, 6)], 2);
    assert_eq!(
        serial_simulations::get_k(&honest_sample, &adversary_sample),
        Some(KValue::Infinite)
    );

    let honest_sample = chain_seq(&[(1, 2), (3, 4)], 2);
    let adversary_sample = chain_seq(&[(2, 2), (4, 4)], 2);
    assert_eq!(
        serial_simulations::get_k(&honest_sample, &adversary_sample),
        Some(KValue::Finite(4))
    );

    let honest_sample = chain_seq(&[(1, 2), (3, 6)], 2);
    let adversary_sample = chain_seq(&[(2, 1), (4, 4)], 2);
    assert_eq!(
        serial_simulations::get_k(&honest_sample, &adversary_sample),
        Some(KValue::Finite(2))
    );
}

#[test]
fn test_serial_get_k_window_rule() {
    // The adversary's final record is no later than the honest one: no race
    // can start past the observed window, so the depth is infinite.
    let honest_sample = chain_seq(&[(1, 2), (9, 4)], 1);
    let adversary_sample = chain_seq(&[(2, 3)], 1);
    assert_eq!(
        serial_simulations::get_k(&honest_sample, &adversary_sample),
        Some(KValue::Infinite)
    );
}

#[test]
fn test_sort_k_values_orders_with_infinities_last() {
    let mut k = vec![
        KValue::Finite(10),
        KValue::Infinite,
        KValue::Finite(1),
        KValue::Finite(3),
        KValue::Infinite,
        KValue::Finite(1),
    ];
    sort_k_values(&mut k);
    assert_eq!(
        k,
        vec![
            KValue::Finite(1),
            KValue::Finite(1),
            KValue::Finite(3),
            KValue::Finite(10),
            KValue::Infinite,
            KValue::Infinite,
        ]
    );
}

#[test]
fn test_expected_shortfall_scenario() {
    let mut k: Vec<KValue> = [1u64, 1, 1, 1, 1, 1, 10, 3, 2, 2, 11]
        .iter()
        .map(|&v| KValue::Finite(v))
        .collect();
    let r = get_expected_shortfall(&mut k, Ratio { num: 1, den: 10 });
    // The average of [3, 10, 11] is exactly 8.
    assert_eq!(r, TailStat::Finite(Ratio { num: 24, den: 3 }));
}

#[test]
fn test_expected_shortfall_infinite_quantile() {
    let mut k = vec![
        KValue::Finite(1),
        KValue::Finite(2),
        KValue::Infinite,
        KValue::Infinite,
        KValue::Infinite,
    ];
    let r = get_expected_shortfall(&mut k, Ratio { num: 1, den: 10 });
    assert_eq!(r, TailStat::Infinite);
}

#[test]
fn test_interpolated_k_star_breaks_ties() {
    let mut k: Vec<KValue> = [1u64, 1, 1, 1, 1, 1, 10, 3, 2, 2, 11]
        .iter()
        .map(|&v| KValue::Finite(v))
        .collect();
    let r = get_interpolated_k_star(&mut k, Ratio { num: 1, den: 10 });
    // Sorted: [1,1,1,1,1,1,2,2,3,10,11]; index 8 holds 3, a run of one, so
    // the interpolation anchors at the 2 below it: 2 + 1 * (3 - 2) / 1 = 3.
    assert_eq!(r, TailStat::Finite(Ratio { num: 3, den: 1 }));
}

#[test]
fn test_get_monte_carlo_performance_three_trials() {
    let honest = chain_seq(&[(1, 2), (3, 4), (4, 6)], 1);
    let adversary = chain_seq(&[(2, 3), (5, 4), (6, 5)], 1);
    let honest_trials = vec![honest.clone(), honest.clone(), honest];
    let adversary_trials = vec![adversary.clone(), adversary.clone(), adversary];
    let perf = get_monte_carlo_performance(
        &honest_trials,
        &adversary_trials,
        Ratio { num: 1, den: 10 },
        TailPolicy::Interpolated,
    );
    // All three depths are 4, so the interpolated statistic is 4.
    assert_eq!(perf.k_star, TailStat::Finite(Ratio { num: 8, den: 2 }));
    // Work rate 6/4 quantized: floor(1.5 * RATE_DEN), summed over 3 trials.
    let rate = 6 * RATE_DEN / 4;
    assert_eq!(perf.f_work, Ratio { num: 3 * rate, den: 3 * RATE_DEN });
    let height_rate = 3 * RATE_DEN / 4;
    assert_eq!(perf.f_height, Ratio { num: 3 * height_rate, den: 3 * RATE_DEN });
    assert_eq!(perf.max_work, 6);
    assert_eq!(perf.max_height, 3);
    assert_eq!(perf.adversary_max_work, 5);
    assert_eq!(perf.adversary_max_height, 3);
}

#[test]
fn test_get_performance_diagnostics() {
    let honest = chain_seq(&[(1, 2), (3, 4), (4, 6)], 1);
    let adversary = chain_seq(&[(2, 3), (5, 4), (6, 5)], 1);
    let honest_trials = vec![honest.clone(), honest.clone(), honest];
    let adversary_trials = vec![adversary.clone(), adversary.clone(), adversary];
    let (k_star, interpolated, f_work, f_height, sorted) = test_get_performance(
        &honest_trials,
        &adversary_trials,
        Ratio { num: 1, den: 10 },
    );
    assert_eq!(k_star, KValue::Finite(4));
    assert_eq!(interpolated, TailStat::Finite(Ratio { num: 8, den: 2 }));
    let rate = 6 * RATE_DEN / 4;
    assert_eq!(f_work, Ratio { num: 3 * rate, den: 3 * RATE_DEN });
    let height_rate = 3 * RATE_DEN / 4;
    assert_eq!(f_height, Ratio { num: 3 * height_rate, den: 3 * RATE_DEN });
    assert_eq!(sorted, vec![KValue::Finite(4), KValue::Finite(4), KValue::Finite(4)]);
}
