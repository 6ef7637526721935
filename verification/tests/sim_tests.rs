use votesim::methods::test_utils::sim_from_scores;
use votesim::sim::Sim;

fn matrix(rows: &[&[i64]]) -> Vec<Vec<i64>> {
    rows.iter().map(|r| r.to_vec()).collect()
}

#[test]
fn test_ranks_beats_and_smith() {
    let mut sim = Sim::new(6, 5);
    sim.scores = matrix(&[
        &[-1, -2, -3, -4, -5, -6],
        &[-1, -2, -3, -4, -5, -6],
        &[-2, -3, -1, -5, -6, -4],
        &[-3, -1, -2, -6, -4, -5],
        &[-1, -2, -1, -4, -5, -4],
    ]);
    sim.rank_candidates();
    assert_eq!(
        sim.ranks,
        vec![
            vec![0, 1, 2, 3, 4, 5],
            vec![0, 1, 2, 3, 4, 5],
            vec![2, 0, 1, 5, 3, 4], // cand 2 is ranked 1st, etc.
            vec![1, 2, 0, 4, 5, 3],
            // equal scores always order by candidate index
            vec![0, 2, 1, 3, 5, 4],
        ]
    );
    assert_eq!(
        sim.i_beats_j_by,
        vec![
            vec![0, 3, 0, 5, 5, 5], // i goes down, j goes across
            vec![-3, 0, 1, 5, 5, 5],
            vec![0, -1, 0, 5, 5, 5],
            vec![-5, -5, -5, 0, 3, 0],
            vec![-5, -5, -5, -3, 0, 1],
            vec![-5, -5, -5, 0, -1, 0],
        ]
    );
    sim.find_smith_set();
    assert_eq!(sim.in_smith_set, vec![true, true, true, false, false, false]);
}

#[test]
fn test_smith_set() {
    let mut sim = sim_from_scores(&vec![
        (vec![-2, -3, -4, -1], 40), // D>A>B>C
        (vec![-3, -1, -2, -4], 35), // B>C>A>D
        (vec![-2, -3, -1, -4], 25), // C>A>B>D
    ]);
    sim.rank_candidates();
    let expect_beats = vec![
        vec![0, 40 - 35 + 25, 40 - 35 - 25, -40 + 35 + 25],
        vec![-30, 0, 40 + 35 - 25, -40 + 35 + 25],
        vec![20, -50, 0, -40 + 35 + 25],
        vec![-20, -20, -20, 0],
    ];
    assert_eq!(sim.i_beats_j_by, expect_beats);
    sim.find_smith_set();
    // (A>B, B>C, C>A), A>D, B>D, C>D
    assert_eq!(sim.in_smith_set, vec![true, true, true, false]);
    assert_eq!(sim.smith_set_size(), 3);

    let mut sim = Sim::new(4, 5);
    sim.scores = matrix(&[
        &[-31, -41, -9, -33],
        &[-52, -22, -29, -53],
        &[-35, -40, -10, -37],
        &[-54, -31, -28, -56],
        &[-21, -60, -8, -25],
    ]);
    sim.rank_candidates();
    assert_eq!(
        sim.i_beats_j_by,
        vec![
            vec![0, 1, -5, 5],
            vec![-1, 0, -3, -1],
            vec![5, 3, 0, 5],
            vec![-5, 1, -5, 0],
        ]
    );
    sim.find_smith_set();
    assert_eq!(sim.smith_set_size(), 1);
    assert_eq!(sim.in_smith_set, vec![false, false, true, false]);
}

#[test]
fn test_regret_order_and_break_tie() {
    // column totals: 9, 12, 6 -- ideal candidate is 1
    let mut sim = Sim::new(3, 3);
    sim.election(matrix(&[&[1, 4, 2], &[4, 4, 1], &[4, 4, 3]]));
    assert_eq!(sim.utilities, vec![9, 12, 6]);
    assert_eq!(sim.cand_by_regret, vec![1, 0, 2]);
    assert_eq!(sim.regret_rank, vec![1, 0, 2]);
    assert_eq!(sim.regrets, vec![3, 0, 6]);
    // one voter strictly prefers 1 over 0, the others are indifferent,
    // so a tied result with 0 first is swapped
    let tied = votesim::methods::WinnerAndRunnerup {
        winner: votesim::methods::ElectResult { cand: 0, score: 5 },
        runnerup: votesim::methods::ElectResult { cand: 1, score: 5 },
    };
    let fixed = sim.break_tie_with_plurality(&tied);
    assert_eq!(fixed.winner.cand, 1);
    assert_eq!(fixed.runnerup.cand, 0);
    // untied results come back unchanged
    let untied = votesim::methods::WinnerAndRunnerup {
        winner: votesim::methods::ElectResult { cand: 1, score: 7 },
        runnerup: votesim::methods::ElectResult { cand: 0, score: 5 },
    };
    let same = sim.break_tie_with_plurality(&untied);
    assert_eq!(same, untied);
}

#[test]
fn test_degenerate_identical_voters() {
    // all voters identical: regrets well-defined, zero for the best
    let mut sim = Sim::new(3, 4);
    sim.election(matrix(&[&[5, 5, 5], &[5, 5, 5], &[5, 5, 5], &[5, 5, 5]]));
    assert_eq!(sim.regrets, vec![0, 0, 0]);
    assert_eq!(sim.cand_by_regret, vec![0, 1, 2]);
    assert!(sim.smith_set_size() >= 1);
    assert_eq!(sim.in_smith_set, vec![true, true, true]);
}

#[test]
fn test_take_from_primary() {
    let mut primary = Sim::new(4, 3);
    primary.election(matrix(&[&[9, 1, 5, 3], &[9, 2, 6, 3], &[0, 1, 8, 3]]));
    let winners = vec![
        votesim::methods::ElectResult { cand: 2, score: 0 },
        votesim::methods::ElectResult { cand: 0, score: 0 },
    ];
    let mut general = Sim::new(2, 3);
    general.take_from_primary(&primary, &winners);
    assert_eq!(general.scores, vec![vec![5, 9], vec![6, 9], vec![8, 0]]);
    assert_eq!(general.utilities, vec![19, 18]);
    assert_eq!(general.cand_by_regret, vec![0, 1]);
}
