use simulation::formatting::{
    get_monte_carlo_progresses, get_progresses, scale_blocks, scale_monte_carlo_blocks,
    scale_monte_carlo_progresses,
};
use simulation::sampling::{get_bitcoin_blocks, sample_poem_blocks, sample_timestamps};
use simulation::types::{Block, BlockSeq, Chain, ChainSeq, Ratio};

// One time unit is 10^17 ticks in these fixtures, so the sampled fractional
// timestamps are represented exactly.
const TD: u64 = 100_000_000_000_000_000;

fn fixture_timestamps() -> Vec<u64> {
    vec![
        21609444842359038,
        99412517684089770,
        120464521699793250,
        213604821739438300,
        342321322384752600,
        361896038602233450,
        879246399329533500,
        979500251670047600,
        1036318196782859000,
        1056084989041632800,
    ]
}

fn unit_blocks() -> Vec<Block> {
    fixture_timestamps()
        .into_iter()
        .map(|t| Block { timestamp: t, work: 1 })
        .collect()
}

fn expected_chains(positions: &[usize], delay: u64) -> Vec<Chain> {
    let ts = fixture_timestamps();
    let mut out = vec![Chain { timestamp: 0, work: 0, height: 0, arrival_time: 0 }];
    for (h, &p) in positions.iter().enumerate() {
        out.push(Chain {
            timestamp: ts[p],
            work: (h + 1) as u64,
            height: (h + 1) as u64,
            arrival_time: ts[p] + delay,
        });
    }
    out
}

#[test]
fn abstract_simulations_test_get_work_progresses() {
    let blocks = unit_blocks();

    let mut progresses = Vec::new();
    get_progresses(&mut progresses, &blocks, 0);
    assert_eq!(progresses, expected_chains(&[0, 1, 2, 3, 4, 5, 6, 7, 8, 9], 0));

    get_progresses(&mut progresses, &blocks, TD / 2);
    assert_eq!(progresses, expected_chains(&[0, 1, 3, 4, 6, 7, 8], TD / 2));

    get_progresses(&mut progresses, &blocks, TD);
    assert_eq!(progresses, expected_chains(&[0, 3, 4, 6, 7], TD));

    get_progresses(&mut progresses, &blocks, 2 * TD);
    assert_eq!(progresses, expected_chains(&[0, 4, 6], 2 * TD));
}

#[test]
fn formatting_test_get_work_progresses() {
    let blocks = unit_blocks();
    let mut progresses = Vec::with_capacity(blocks.len() + 1);

    get_progresses(&mut progresses, &blocks, 0);
    assert_eq!(progresses, expected_chains(&[0, 1, 2, 3, 4, 5, 6, 7, 8, 9], 0));
    for (h, chain) in progresses.iter().enumerate() {
        assert_eq!(chain.work, h as u64);
        assert_eq!(chain.height, h as u64);
    }

    get_progresses(&mut progresses, &blocks, TD / 2);
    assert_eq!(progresses, expected_chains(&[0, 1, 3, 4, 6, 7, 8], TD / 2));

    get_progresses(&mut progresses, &blocks, TD);
    assert_eq!(progresses, expected_chains(&[0, 3, 4, 6, 7], TD));

    get_progresses(&mut progresses, &blocks, 2 * TD);
    assert_eq!(progresses, expected_chains(&[0, 4, 6], 2 * TD));
}

#[test]
fn test_delay_monotone_heights() {
    // More delay never yields more visible improvements on unit-work blocks.
    let blocks = unit_blocks();
    let mut previous_len = usize::MAX;
    for delay in [0, TD / 2, TD, 2 * TD, 4 * TD] {
        let mut progresses = Vec::new();
        get_progresses(&mut progresses, &blocks, delay);
        assert!(progresses.len() <= previous_len);
        previous_len = progresses.len();
    }
}

#[test]
fn test_delay_dominates_work_but_not_height_with_unequal_works() {
    // With unequal works a larger delay can record more, smaller,
    // improvements; only the cumulative work is monotone in the delay.
    // Ticks are tenths of a unit.
    let blocks = vec![
        Block { timestamp: 10, work: 100 },
        Block { timestamp: 25, work: 110 },
        Block { timestamp: 34, work: 20 },
    ];
    let mut short_delay = Vec::new();
    get_progresses(&mut short_delay, &blocks, 10);
    let mut long_delay = Vec::new();
    get_progresses(&mut long_delay, &blocks, 20);
    assert_eq!(short_delay.last().unwrap().work, 210);
    assert_eq!(long_delay.last().unwrap().work, 120);
    assert!(long_delay.last().unwrap().work <= short_delay.last().unwrap().work);
    assert_eq!(short_delay.last().unwrap().height, 2);
    assert_eq!(long_delay.last().unwrap().height, 3);
}

#[test]
fn test_sample_timestamps_cumulative() {
    let gaps = vec![5, 3, 2, 7];
    let ts = sample_timestamps(&gaps);
    assert_eq!(ts, vec![5, 8, 10, 17]);
}

#[test]
fn test_get_bitcoin_blocks_unit_work() {
    let ts = vec![4, 9, 11];
    let blocks = get_bitcoin_blocks(&ts, 6);
    assert_eq!(
        blocks,
        vec![
            Block { timestamp: 4, work: 6 },
            Block { timestamp: 9, work: 6 },
            Block { timestamp: 11, work: 6 },
        ]
    );
}

#[test]
fn test_sample_poem_blocks_pairing() {
    let ts = vec![4, 9];
    let works = vec![2, 5];
    let blocks = sample_poem_blocks(&ts, &works);
    assert_eq!(
        blocks,
        vec![Block { timestamp: 4, work: 2 }, Block { timestamp: 9, work: 5 }]
    );
}

#[test]
fn test_scale_blocks_values() {
    let original = BlockSeq {
        blocks: vec![Block { timestamp: 10, work: 3 }, Block { timestamp: 20, work: 5 }],
        time_den: 2,
        work_den: 4,
    };
    let g = Ratio { num: 3, den: 2 };
    let gamma = Ratio { num: 7, den: 5 };
    let mut scaled = BlockSeq { blocks: Vec::new(), time_den: 1, work_den: 1 };
    scale_blocks(&mut scaled, &original, g, gamma);
    // timestamp' = timestamp * g.den over time_den * g.num: value divided by g
    assert_eq!(scaled.time_den, 6);
    assert_eq!(scaled.work_den, 20);
    assert_eq!(scaled.blocks[0], Block { timestamp: 20, work: 3 * 5 + 7 * 4 });
    assert_eq!(scaled.blocks[1], Block { timestamp: 40, work: 5 * 5 + 7 * 4 });
    // Round trip: multiplying the scaled timestamp by g recovers the raw
    // value, and subtracting gamma from the scaled work recovers the raw
    // work, as exact cross-multiplied identities.
    for (s, o) in scaled.blocks.iter().zip(original.blocks.iter()) {
        let lhs = (s.timestamp as u128) * (g.num as u128) * (original.time_den as u128);
        let rhs = (o.timestamp as u128) * (scaled.time_den as u128) * (g.den as u128);
        assert_eq!(lhs, rhs);
        let lhs_w = ((s.work as u128) * (gamma.den as u128)
            - (gamma.num as u128) * (scaled.work_den as u128)) * (original.work_den as u128);
        let rhs_w = (o.work as u128) * (scaled.work_den as u128) * (gamma.den as u128);
        assert_eq!(lhs_w, rhs_w);
    }
}

#[test]
fn test_scale_monte_carlo_blocks_all_trials() {
    let trial = BlockSeq {
        blocks: vec![Block { timestamp: 3, work: 1 }],
        time_den: 1,
        work_den: 1,
    };
    let originals = vec![trial.clone(), trial];
    let mut scaled = Vec::new();
    scale_monte_carlo_blocks(&mut scaled, &originals, Ratio { num: 2, den: 1 }, Ratio {
        num: 1,
        den: 1,
    });
    assert_eq!(scaled.len(), 2);
    for s in &scaled {
        assert_eq!(s.time_den, 2);
        assert_eq!(s.work_den, 1);
        assert_eq!(s.blocks[0], Block { timestamp: 3, work: 2 });
    }
}

#[test]
fn test_scale_progresses_height_weighted_bonus() {
    // Halving the rate doubles the timestamps; the bonus accrues once per
    // chain-extension event, so a record at height h gains h * gamma.
    let genesis = Chain { timestamp: 0, work: 0, height: 0, arrival_time: 0 };
    let trials = vec![
        ChainSeq {
            chains: vec![
                genesis,
                Chain { timestamp: 1, work: 1, height: 1, arrival_time: 0 },
                Chain { timestamp: 2, work: 2, height: 2, arrival_time: 0 },
            ],
            time_den: 1,
            work_den: 1,
        },
        ChainSeq {
            chains: vec![
                genesis,
                Chain { timestamp: 2, work: 1, height: 1, arrival_time: 0 },
                Chain { timestamp: 3, work: 2, height: 2, arrival_time: 0 },
            ],
            time_den: 1,
            work_den: 1,
        },
    ];
    let mut scaled = Vec::new();
    scale_monte_carlo_progresses(&mut scaled, &trials, Ratio { num: 1, den: 2 }, Ratio {
        num: 2,
        den: 1,
    });
    assert_eq!(scaled.len(), 2);
    for s in &scaled {
        assert_eq!(s.time_den, 1);
        assert_eq!(s.work_den, 1);
    }
    assert_eq!(
        scaled[0].chains,
        vec![
            genesis,
            Chain { timestamp: 2, work: 3, height: 1, arrival_time: 0 },
            Chain { timestamp: 4, work: 6, height: 2, arrival_time: 0 },
        ]
    );
    assert_eq!(
        scaled[1].chains,
        vec![
            genesis,
            Chain { timestamp: 4, work: 3, height: 1, arrival_time: 0 },
            Chain { timestamp: 6, work: 6, height: 2, arrival_time: 0 },
        ]
    );
}

#[test]
fn test_get_monte_carlo_progresses_per_trial() {
    let seqs = vec![
        BlockSeq {
            blocks: vec![Block { timestamp: 2, work: 1 }, Block { timestamp: 5, work: 1 }],
            time_den: 1,
            work_den: 1,
        },
    ];
    let mut progresses = Vec::new();
    get_monte_carlo_progresses(&mut progresses, &seqs, 0);
    assert_eq!(progresses.len(), 1);
    assert_eq!(
        progresses[0].chains,
        vec![
            Chain { timestamp: 0, work: 0, height: 0, arrival_time: 0 },
            Chain { timestamp: 2, work: 1, height: 1, arrival_time: 2 },
            Chain { timestamp: 5, work: 2, height: 2, arrival_time: 5 },
        ]
    );
    assert_eq!(progresses[0].time_den, 1);
    assert_eq!(progresses[0].work_den, 1);
}
