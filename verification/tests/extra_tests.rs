use votesim::config::{Config, ConfigError};
use votesim::methods::tallies::tally_votes;
use votesim::methods::{
    Borda, ElectResult, Method, MultiWinMethod, Multivote, Plurality, RangeVoting, Strategy, RRV,
};
use votesim::run::{partition_trials, plan_chunks, surviving_in_regret_order};
use votesim::sim::Sim;

fn matrix(rows: &[&[i64]]) -> Vec<Vec<i64>> {
    rows.iter().map(|r| r.to_vec()).collect()
}

fn base_config() -> Config {
    Config {
        voters: 5,
        candidates: 3,
        primary_candidates: None,
        methods: vec![Method::Plurality(Plurality { strat: Strategy::Honest })],
        primary_method: None,
    }
}

#[test]
fn test_validate_accepts_base() {
    assert_eq!(base_config().validate(), Ok(()));
}

#[test]
fn test_validate_rejects_too_few_candidates() {
    let mut c = base_config();
    c.candidates = 1;
    assert_eq!(c.validate(), Err(ConfigError::TooFewCandidates));
}

#[test]
fn test_validate_rejects_too_many_candidates() {
    let mut c = base_config();
    c.candidates = 0x8000;
    assert_eq!(c.validate(), Err(ConfigError::TooManyCandidates));
}

#[test]
fn test_validate_rejects_no_voters() {
    let mut c = base_config();
    c.voters = 0;
    assert_eq!(c.validate(), Err(ConfigError::NoVoters));
}

#[test]
fn test_validate_rejects_too_many_voters() {
    let mut c = base_config();
    c.voters = 0x8000_0000;
    assert_eq!(c.validate(), Err(ConfigError::TooManyVoters));
}

#[test]
fn test_validate_rejects_small_primary() {
    let mut c = base_config();
    c.primary_candidates = Some(2);
    c.primary_method = Some(MultiWinMethod::RRV(RRV {
        strat: Strategy::Honest,
        ranks: 25,
        k_num: 1,
        k_den: 2,
    }));
    assert_eq!(c.validate(), Err(ConfigError::PrimarySizeInvalid));
}

#[test]
fn test_validate_rejects_missing_primary_method() {
    let mut c = base_config();
    c.primary_candidates = Some(6);
    assert_eq!(c.validate(), Err(ConfigError::MissingPrimaryMethod));
}

#[test]
fn test_validate_rejects_bad_primary_params() {
    let mut c = base_config();
    c.primary_candidates = Some(6);
    c.primary_method = Some(MultiWinMethod::RRV(RRV {
        strat: Strategy::Honest,
        ranks: 1,
        k_num: 1,
        k_den: 1,
    }));
    assert_eq!(c.validate(), Err(ConfigError::BadPrimaryMethodParams));
}

#[test]
fn test_validate_rejects_bad_method_params() {
    let mut c = base_config();
    c.methods.push(Method::Multivote(Multivote {
        strat: Strategy::Honest,
        votes: 0,
        spread_num: 1,
        spread_den: 1,
    }));
    assert_eq!(c.validate(), Err(ConfigError::BadMethodParams));
    let mut c2 = base_config();
    c2.methods.push(Method::Borda(Borda {
        strat: Strategy::Honest,
        rank_top_n: Some(4),
    }));
    assert_eq!(c2.validate(), Err(ConfigError::BadMethodParams));
    let mut c3 = base_config();
    c3.methods.push(Method::Range(RangeVoting {
        strat: Strategy::Strategic,
        nranks: 1,
        strategic_stretch_factor: 4,
    }));
    assert_eq!(c3.validate(), Err(ConfigError::BadMethodParams));
}

#[test]
fn test_tally_votes_picks_top_two() {
    let r = tally_votes(&vec![1, 5, 3]);
    assert_eq!(r.winner.cand, 1);
    assert_eq!(r.winner.score, 5);
    assert_eq!(r.runnerup.cand, 2);
    assert_eq!(r.runnerup.score, 3);
}

#[test]
fn test_tally_votes_exact_tie_keeps_both() {
    let r = tally_votes(&vec![4, 4]);
    assert!(r.is_tied());
    assert!(
        (r.winner.cand == 0 && r.runnerup.cand == 1)
            || (r.winner.cand == 1 && r.runnerup.cand == 0)
    );
    assert_eq!(r.winner.score, 4);
    assert_eq!(r.runnerup.score, 4);
}

#[test]
fn test_plan_and_partition() {
    // 100000 trials need ten batches; rounded up to a multiple of four
    assert_eq!(plan_chunks(4, 100000), 12);
    // few trials: one batch per worker
    assert_eq!(plan_chunks(4, 10), 4);
    let parts = partition_trials(10, 4);
    assert_eq!(parts, vec![3, 3, 2, 2]);
    let total: usize = parts.iter().sum();
    assert_eq!(total, 10);
    // balanced within one, and never above the per-batch cap
    assert_eq!(partition_trials(7, 3), vec![3, 2, 2]);
    assert_eq!(partition_trials(0, 3), vec![0, 0, 0]);
    let big = partition_trials(100000, plan_chunks(4, 100000));
    assert!(big.iter().all(|&p| p <= 10000));
}

#[test]
fn test_surviving_in_regret_order() {
    let cbr = vec![2usize, 0, 3, 1];
    let winners = vec![
        ElectResult { cand: 1, score: 0 },
        ElectResult { cand: 3, score: 0 },
    ];
    assert_eq!(surviving_in_regret_order(&cbr, &winners), vec![3, 1]);
}

#[test]
fn test_mean_regret_nonnegative_over_trials() {
    // over a handful of elections the winner's regret is never
    // negative, so every method's mean regret is non-negative; the
    // ideal candidate always has regret zero
    let fixtures: Vec<Vec<Vec<i64>>> = vec![
        matrix(&[&[4, 3, 2], &[1, 4, 2], &[3, 4, 2], &[3, 2, 1], &[3, 2, 4]]),
        matrix(&[&[1, 2, 3], &[3, 2, 1], &[2, 3, 1], &[1, 3, 2], &[2, 1, 3]]),
        matrix(&[&[5, 5, 5], &[5, 5, 5], &[0, 0, 9], &[9, 0, 0], &[0, 9, 0]]),
    ];
    let mut total_honest: i64 = 0;
    let mut total_strategic: i64 = 0;
    for scores in fixtures {
        let mut sim = Sim::new(3, 5);
        sim.election(scores);
        assert_eq!(sim.regrets[sim.cand_by_regret[0]], 0);
        let mut honest = Plurality { strat: Strategy::Honest }.new_sim(&sim);
        let hr = honest.elect(&sim, None);
        assert!(sim.regrets[hr.winner.cand] >= 0);
        total_honest += sim.regrets[hr.winner.cand];
        let mut strategic = Plurality { strat: Strategy::Strategic }.new_sim(&sim);
        let sr = strategic.elect(&sim, Some(hr));
        assert!(sim.regrets[sr.winner.cand] >= 0);
        total_strategic += sim.regrets[sr.winner.cand];
    }
    assert!(total_honest >= 0);
    assert!(total_strategic >= 0);
}

#[test]
fn test_strategy_letters() {
    assert_eq!(Strategy::Honest.as_letter(), "h");
    assert_eq!(Strategy::Strategic.as_letter(), "s");
}

#[test]
fn test_method_labels() {
    let sim = {
        let mut s = Sim::new(3, 5);
        s.election(matrix(&[
            &[1, 2, 3],
            &[3, 2, 1],
            &[2, 3, 1],
            &[1, 3, 2],
            &[2, 1, 3],
        ]));
        s
    };
    let m = Method::Range(RangeVoting {
        strat: Strategy::Honest,
        nranks: 10,
        strategic_stretch_factor: 4,
    })
    .new_sim(&sim);
    assert_eq!(m.colname(), "range_10_h");
    assert_eq!(m.name(), "Range 1-10, Honest");
    let m2 = Method::Plurality(Plurality { strat: Strategy::Strategic }).new_sim(&sim);
    assert_eq!(m2.colname(), "pl_s");
}
