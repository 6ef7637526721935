use votesim::methods::test_utils::sim_from_scores;
use votesim::methods::{
    Borda, BtrIrv, ElectResult, InstantRunoff, Minimax, Multivote, PluralityTopN, Strategy, RP,
};
use votesim::sim::Sim;

fn matrix(rows: &[&[i64]]) -> Vec<Vec<i64>> {
    rows.iter().map(|r| r.to_vec()).collect()
}

#[test]
fn test_borda_honest_strat() {
    let mut sim = Sim::new(4, 5);
    sim.scores = matrix(&[
        &[4, 3, 2, 1],
        &[1, 4, 2, 3],
        &[3, 4, 2, 1],
        &[3, 2, 1, 4],
        &[3, 2, 4, 1],
    ]);
    // Tallies: 14, 15, 11, 10
    let mut method = Borda { strat: Strategy::Honest, rank_top_n: None }.new_sim(&sim);
    sim.rank_candidates();
    let honest_results = method.elect(&sim, None);
    assert_eq!(honest_results.winner.cand, 1);
    assert_eq!(honest_results.winner.score, 15);
    assert_eq!(honest_results.runnerup.cand, 0);
    assert_eq!(honest_results.runnerup.score, 14);

    let mut method = Borda { strat: Strategy::Strategic, rank_top_n: None }.new_sim(&sim);
    let strat_results = method.elect(&sim, Some(honest_results));
    // strategic scoring is reduced by one so the enemy is always at 0:
    // 3 0 2 1 / 0 3 1 2 / 0 3 2 1 / 3 0 1 2 / 3 0 2 1
    assert_eq!(method.tallies, vec![9, 6, 8, 7]);
    assert_eq!(strat_results.winner.cand, 0);
}

#[test]
fn test_borda_ltd() {
    let mut sim = Sim::new(4, 5);
    sim.scores = matrix(&[
        &[4, 3, 2, 1], // 2 1 0 0
        &[1, 4, 2, 3], // 0 2 0 1
        &[3, 4, 2, 1], // 1 2 0 0
        &[3, 2, 1, 4], // 1 0 0 2
        &[2, 3, 4, 1], // 0 1 2 0
    ]);
    // Tallies: 4 6 2 3
    let mut method = Borda { strat: Strategy::Honest, rank_top_n: Some(2) }.new_sim(&sim);
    sim.rank_candidates();
    let honest_results = method.elect(&sim, None);
    assert_eq!(method.tallies, vec![4, 6, 2, 3]);
    assert_eq!(honest_results.winner.cand, 1);
    assert_eq!(honest_results.runnerup.cand, 0);

    let mut method = Borda { strat: Strategy::Strategic, rank_top_n: Some(3) }.new_sim(&sim);
    let strat_results = method.elect(&sim, Some(honest_results));
    // 2 0 1 0 / 0 2 0 1 / 0 2 1 0 / 2 0 0 1 / 0 2 1 0
    assert_eq!(method.tallies, vec![4, 6, 3, 2]);
    assert_eq!(strat_results.winner.cand, 1);
}

#[test]
fn test_irv_honest() {
    let mut sim = Sim::new(4, 5);
    sim.scores = matrix(&[
        &[4, 3, 2, 1],
        &[1, 4, 2, 3],
        &[3, 4, 2, 1],
        &[3, 2, 1, 4],
        &[4, 2, 3, 1],
    ]);
    /* Round 1 tallies: 2, 2, 0, 1 -- eliminate cand 2
     * Round 2 tallies: 2, 2, -, 1 -- eliminate cand 3
     * Round 3 tallies: 3, 2, -, - -- winner is 0, runnerup is 1
     */
    let mut method = InstantRunoff {}.new_sim(&sim);
    sim.rank_candidates();
    let honest_results = method.elect(&sim, None);
    assert_eq!(honest_results.winner.cand, 0);
    assert_eq!(honest_results.winner.score, 3);
    assert_eq!(honest_results.runnerup.cand, 1);
    assert_eq!(honest_results.runnerup.score, 2);
}

#[test]
fn test_btr_irv_honest() {
    let mut sim = sim_from_scores(&vec![
        (vec![-1, -2, -3, -4], 42),
        (vec![-4, -1, -2, -3], 26),
        (vec![-4, -3, -1, -2], 15),
        (vec![-4, -3, -2, -1], 17),
    ]);
    let mut method = BtrIrv {}.new_sim(&sim);
    sim.rank_candidates();
    let honest_results = method.elect(&sim, None);
    assert_eq!(honest_results.winner.cand, 1);
    assert_eq!(honest_results.winner.score, 58);
    assert_eq!(honest_results.runnerup.cand, 0);
    assert_eq!(honest_results.runnerup.score, 42);
}

#[test]
fn test_minimax() {
    let mut sim = sim_from_scores(&vec![
        (vec![-1, -2, -3, -4], 42),
        (vec![-4, -1, -2, -3], 26),
        (vec![-4, -3, -1, -2], 15),
        (vec![-4, -3, -2, -1], 17),
    ]);
    sim.rank_candidates();
    assert_eq!(
        sim.i_beats_j_by,
        vec![
            vec![0, -16, -16, -16],
            vec![16, 0, 36, 36],
            vec![16, -36, 0, 66],
            vec![16, -36, -66, 0],
        ]
    );
    let mut method = Minimax {}.new_sim(&sim);
    let honest_results = method.elect(&sim, None);
    assert_eq!(method.min_victory_margin, vec![-16, 16, -36, -66]);
    assert_eq!(honest_results.winner.cand, 1);
    assert_eq!(honest_results.winner.score, 16);
    assert_eq!(honest_results.runnerup.cand, 0);
    assert_eq!(honest_results.runnerup.score, -16);
}

#[test]
fn test_multivoting() {
    let mut sim = Sim::new(4, 5);
    // min_score is 1, total is 14, total - min*ncand = 10
    sim.scores = matrix(&[
        &[1, 2, 4, 7], // votes 0 1 1 2
        &[1, 4, 2, 7], //       0 1 1 2
        &[7, 1, 2, 4], //       2 0 1 1
        &[2, 1, 7, 4], //       1 0 2 1
        &[2, 7, 1, 4], //       1 2 0 1
    ]);
    // Tallies: 4 4 5 7
    let mut method = Multivote {
        strat: Strategy::Honest,
        votes: 4,
        spread_num: 11,
        spread_den: 10,
    }
    .new_sim(&sim);
    sim.rank_candidates();
    let honest_results = method.elect(&sim, None);
    assert_eq!(honest_results.winner.cand, 3);
    assert_eq!(honest_results.winner.score, 7);
    assert_eq!(honest_results.runnerup.cand, 2);
    assert_eq!(honest_results.runnerup.score, 5);

    let mut smethod = Multivote {
        strat: Strategy::Strategic,
        votes: 4,
        spread_num: 11,
        spread_den: 10,
    }
    .new_sim(&sim);
    // tallies: 4, 4, 4, 8
    let strat_results = smethod.elect(&sim, Some(honest_results));
    assert_eq!(strat_results.winner.cand, 3);
    assert_eq!(strat_results.winner.score, 8);
}

#[test]
fn test_plurality_top_n() {
    let mut sim = Sim::new(4, 6);
    let mut ptn = PluralityTopN {}.new_sim(&sim);
    sim.scores = matrix(&[
        &[0, 1, 0, 0],
        &[0, 0, 1, 0],
        &[0, 0, 1, 0],
        &[0, 0, 0, 1],
        &[0, 0, 0, 1],
        &[0, 0, 0, 1],
    ]);
    sim.rank_candidates();
    // tallies are: 0, 1, 2, 3
    let results = ptn.multi_elect(&sim, None, 3);
    assert_eq!(results.len(), 3);
    assert_eq!(results[0], ElectResult { cand: 3, score: 3 });
    assert_eq!(results[1], ElectResult { cand: 2, score: 2 });
    assert_eq!(results[2], ElectResult { cand: 1, score: 1 });
}

#[test]
fn test_two_candidate_elections() {
    // the smallest supported election: two candidates
    let mut sim = Sim::new(2, 3);
    sim.scores = matrix(&[&[2, 1], &[1, 2], &[4, 3]]);
    sim.rank_candidates();
    let mut rp = RP { strat: Strategy::Honest }.new_sim(&sim);
    let r = rp.elect(&sim, None);
    assert_eq!(r.winner.cand, 0);
    assert_eq!(r.runnerup.cand, 1);
    let mut btr = BtrIrv {}.new_sim(&sim);
    let r2 = btr.elect(&sim, None);
    assert_eq!(r2.winner.cand, 0);
    assert_eq!(r2.winner.score, 2);
    assert_eq!(r2.runnerup.cand, 1);
    assert_eq!(r2.runnerup.score, 1);
}

#[test]
fn test_irv_unanimous() {
    // when nobody else ever collects a first-place vote, the reported
    // runner-up slot stays at the out-of-range marker (the candidate
    // count), just like the round scan leaves it
    let mut sim = Sim::new(2, 5);
    sim.scores = matrix(&[&[2, 1], &[2, 1], &[2, 1], &[2, 1], &[2, 1]]);
    sim.rank_candidates();
    let mut method = InstantRunoff {}.new_sim(&sim);
    let r = method.elect(&sim, None);
    assert_eq!(r.winner.cand, 0);
    assert_eq!(r.winner.score, 5);
    assert_eq!(r.runnerup.cand, 2);
    assert_eq!(r.runnerup.score, 0);
}

#[test]
fn test_rp() {
    let mut sim = Sim::new(3, 12);
    sim.scores = matrix(&[
        &[-1, -2, -3], // 4x A>B>C
        &[-1, -2, -3],
        &[-1, -2, -3],
        &[-1, -2, -3],
        &[-3, -1, -2], // 3x B>C>A
        &[-3, -1, -2],
        &[-3, -1, -2],
        &[-2, -3, -1], // 5x C>A>B
        &[-2, -3, -1],
        &[-2, -3, -1],
        &[-2, -3, -1],
        &[-2, -3, -1],
    ]);
    let mut method = RP { strat: Strategy::Honest }.new_sim(&sim);
    sim.rank_candidates();
    assert_eq!(
        sim.i_beats_j_by,
        vec![vec![0, 6, -4], vec![-6, 0, 2], vec![4, -2, 0]]
    );
    let honest_results = method.elect(&sim, None);
    assert_eq!(honest_results.winner.cand, 2);
}
