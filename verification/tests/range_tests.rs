use votesim::methods::rangevoting::{fill_range_ballot, fill_range_ballot_strat};
use votesim::methods::{ElectResult, RangeVoting, Strategy, RRV, STAR};
use votesim::sim::Sim;
use votesim::RRV_SCALE;

fn matrix(rows: &[&[i64]]) -> Vec<Vec<i64>> {
    rows.iter().map(|r| r.to_vec()).collect()
}

#[test]
fn test_fill_range() {
    // a hundred evenly spaced utilities map onto the hundred grades
    let scores: Vec<i64> = (0..100).map(|i| -9111 + 1000 * i).collect();
    let mut ballot = vec![0i64; 100];
    fill_range_ballot(&scores, 100, &mut ballot);
    for (i, &b) in ballot.iter().enumerate() {
        assert_eq!(i as i64, b);
    }

    // utilities in tenths; the break at 11.5 is given as twice its
    // value in the same units
    let scores: Vec<i64> = vec![100, 109, 127, 181, 190];
    let mut ballot = vec![999i64; 5]; // fill value gets overwritten
    fill_range_ballot_strat(&scores, 100, &mut ballot, 230, 10);
    assert_eq!(ballot, vec![0, 1, 92, 98, 99]);
}

#[test]
fn test_range_voting() {
    let mut sim = Sim::new(3, 6);
    sim.election(matrix(&[
        &[0, 5, 9], // with strategy: 0, 9, 9
        &[0, 5, 9], //                0, 9, 9
        &[1, 0, 9], //                0, 0, 9
        &[9, 0, 2], //                9, 0, 0
        &[9, 5, 0], //                9, 9, 0
        &[9, 5, 0], //                9, 9, 0
    ]));
    // totals: 28, 20, 29 -- with strategy: 27, 36, 27
    let mut method = RangeVoting {
        strat: Strategy::Honest,
        nranks: 10,
        strategic_stretch_factor: 2,
    }
    .new_sim(&sim);
    let honest_results = method.elect(&sim, None);
    assert_eq!(honest_results.winner.cand, 2);
    assert_eq!(honest_results.runnerup.cand, 0);

    let mut method2 = RangeVoting {
        strat: Strategy::Strategic,
        nranks: 10,
        strategic_stretch_factor: 1000, // votes become bottom and top grades
    }
    .new_sim(&sim);
    let strat_results = method2.elect(&sim, Some(honest_results));
    assert_eq!(strat_results.winner.cand, 1);
}

#[test]
fn test_star() {
    let mut sim = Sim::new(3, 6);
    sim.election(matrix(&[
        &[0, 5, 5],
        &[0, 4, 5],
        &[1, 0, 5],
        &[5, 0, 4],
        &[5, 4, 0],
        &[5, 4, 0],
        // ttls: 16, 17, 19
        // cand 1 preferred to 2 by 2 voters; 2 over 1 by 3: cand 2 wins the runoff
    ]));
    let mut method = STAR {
        strat: Strategy::Honest,
        nranks: 6,
        strategic_stretch_factor: 1,
    }
    .new_sim(&sim);
    // cands 1 and 2 go to the runoff
    let honest_results = method.elect(&sim, None);
    assert_eq!(honest_results.winner.cand, 2);
    assert_eq!(honest_results.runnerup.cand, 1);
    assert_eq!(honest_results.winner.score, 3);
    assert_eq!(honest_results.runnerup.score, 2);

    sim.election(matrix(&[
        &[0, 5, 5],
        &[0, 4, 5],
        &[0, 0, 5],
        &[5, 0, 1],
        &[5, 4, 0],
        &[5, 4, 0],
        // ttls: 15, 17, 16: again 1 and 2 go to the runoff but in
        // swapped order; cand 2 still wins it
    ]));
    let honest_results = method.elect(&sim, None);
    assert_eq!(honest_results.winner.cand, 2);
    assert_eq!(honest_results.runnerup.cand, 1);
    assert_eq!(honest_results.winner.score, 3);
    assert_eq!(honest_results.runnerup.score, 2);
}

#[test]
fn test_rrv() {
    let mut sim = Sim::new(5, 100);
    let mut rrv = RRV {
        strat: Strategy::Honest,
        ranks: 11,
        k_num: 1,
        k_den: 1,
    }
    .new_sim(&sim);
    let mut scores: Vec<Vec<i64>> = Vec::new();
    for _ in 0..60 {
        // Team A
        scores.push(vec![10, 9, 8, 1, 0]);
    }
    for _ in 60..100 {
        // Team B
        scores.push(vec![0, 0, 0, 10, 10]);
    }
    sim.election(scores);

    let results = rrv.multi_elect(&sim, None, 3);
    assert_eq!(results.len(), 3);

    // First round, full weights: A1 wins with 600 pts (60*10 + 40*0)
    assert_eq!(
        results[0],
        ElectResult { cand: 0, score: 600 * RRV_SCALE }
    );

    // Round 2: Team A is deweighted by half (10 / (10 + 10)); B1 has
    // 30 deweighted points from Team A and 400 from Team B
    assert_eq!(
        results[1],
        ElectResult { cand: 3, score: 430 * RRV_SCALE }
    );

    // Round 3: Team A's weight is 10/21 (B1 scored 1 on their ballots),
    // rounded down in fixed point: floor(10_000_000 / 21) per ballot
    let a_weight = (RRV_SCALE * 10) / 21;
    assert_eq!(results[2].cand, 1);
    assert_eq!(results[2].score, 60 * 9 * a_weight);

    // the score-to-grade scaling of the stored ballots
    assert_eq!(rrv.ballots[0][0], 10);
    assert_eq!(rrv.ballots[0][4], 0);
}
