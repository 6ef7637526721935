//! Building small workspaces from literal score tables.

use crate::sim::Sim;
use crate::{MAX_CANDIDATES, MAX_SCORE, MAX_VOTERS};
use vstd::prelude::*;

verus! {

/// Voters described by the first `g` groups.
pub open spec fn group_total(groups: Seq<(Vec<i64>, usize)>, g: int) -> int
    decreases g,
{
    if g <= 0 {
        0
    } else {
        group_total(groups, g - 1) + groups[g - 1].1
    }
}

pub proof fn lemma_group_total_mono(groups: Seq<(Vec<i64>, usize)>, g1: int, g2: int)
    requires
        0 <= g1 <= g2,
    ensures
        group_total(groups, g1) <= group_total(groups, g2),
    decreases g2 - g1,
{
    if g1 < g2 {
        lemma_group_total_mono(groups, g1, g2 - 1);
    }
}

/// A workspace whose score matrix repeats each group's utility row
/// for that group's number of voters, in group order. The derived
/// tables start blank; callers re-derive what they need.
pub fn sim_from_scores(groups: &Vec<(Vec<i64>, usize)>) -> (sim: Sim)
    requires
        groups@.len() >= 1,
        1 <= group_total(groups@, groups@.len() as int) <= MAX_VOTERS,
        forall|g: int|
            0 <= g < groups@.len() ==> (#[trigger] groups@[g]).0@.len() == groups@[0].0@.len(),
        1 <= groups@[0].0@.len() <= MAX_CANDIDATES,
        forall|g: int, c: int|
            0 <= g < groups@.len() && 0 <= c < groups@[0].0@.len() ==> -MAX_SCORE
                <= #[trigger] groups@[g].0@[c] <= MAX_SCORE,
    ensures
        sim.wf(),
        sim.ncand == groups@[0].0@.len(),
        sim.ncit == group_total(groups@, groups@.len() as int),
        forall|g: int, t: int|
            0 <= g < groups@.len() && 0 <= t < groups@[g].1 ==> (#[trigger] sim.scores@[
            group_total(groups@, g) + t])@ == groups@[g].0@,
{
    let ncand = groups[0].0.len();
    let ngroups = groups.len();
    let mut total: usize = 0;
    let mut g: usize = 0;
    while g < ngroups
        invariant
            groups@.len() == ngroups,
            g <= ngroups,
            total == group_total(groups@, g as int),
            group_total(groups@, ngroups as int) <= MAX_VOTERS,
            total <= MAX_VOTERS,
        decreases ngroups - g,
    {
        proof {
            lemma_group_total_mono(groups@, g as int + 1, ngroups as int);
        }
        total = total + groups[g].1;
        g += 1;
    }
    let mut scores: Vec<Vec<i64>> = Vec::new();
    let mut g2: usize = 0;
    while g2 < ngroups
        invariant
            groups@.len() == ngroups,
            forall|g3: int| 0 <= g3 < ngroups ==> (#[trigger] groups@[g3]).0@.len() == ncand,
            forall|g3: int, c: int|
                0 <= g3 < ngroups && 0 <= c < ncand ==> -MAX_SCORE <= #[trigger] groups@[g3].0@[c]
                    <= MAX_SCORE,
            g2 <= ngroups,
            scores@.len() == group_total(groups@, g2 as int),
            forall|v: int| 0 <= v < scores@.len() ==> (#[trigger] scores@[v])@.len() == ncand,
            forall|v: int, c: int|
                0 <= v < scores@.len() && 0 <= c < ncand ==> -MAX_SCORE
                    <= #[trigger] scores@[v]@[c] <= MAX_SCORE,
            forall|g3: int, t: int|
                0 <= g3 < g2 && 0 <= t < groups@[g3].1 ==> (#[trigger] scores@[group_total(
                    groups@,
                    g3,
                ) + t])@ == groups@[g3].0@,
            group_total(groups@, ngroups as int) <= MAX_VOTERS,
        decreases ngroups - g2,
    {
        proof {
            lemma_group_total_mono(groups@, g2 as int + 1, ngroups as int);
        }
        let reps = groups[g2].1;
        let mut t: usize = 0;
        while t < reps
            invariant
                groups@.len() == ngroups,
                g2 < ngroups,
                reps == groups@[g2 as int].1,
                forall|g3: int| 0 <= g3 < ngroups ==> (#[trigger] groups@[g3]).0@.len() == ncand,
                forall|g3: int, c: int|
                    0 <= g3 < ngroups && 0 <= c < ncand ==> -MAX_SCORE
                        <= #[trigger] groups@[g3].0@[c] <= MAX_SCORE,
                t <= reps,
                scores@.len() == group_total(groups@, g2 as int) + t,
                group_total(groups@, g2 as int) + reps <= MAX_VOTERS,
                forall|v: int| 0 <= v < scores@.len() ==> (#[trigger] scores@[v])@.len() == ncand,
                forall|v: int, c: int|
                    0 <= v < scores@.len() && 0 <= c < ncand ==> -MAX_SCORE
                        <= #[trigger] scores@[v]@[c] <= MAX_SCORE,
                forall|g3: int, t2: int|
                    0 <= g3 < g2 && 0 <= t2 < groups@[g3].1 ==> (#[trigger] scores@[group_total(
                        groups@,
                        g3,
                    ) + t2])@ == groups@[g3].0@,
                forall|t2: int|
                    0 <= t2 < t ==> (#[trigger] scores@[group_total(groups@, g2 as int) + t2])@
                        == groups@[g2 as int].0@,
            decreases reps - t,
        {
            let mut row: Vec<i64> = Vec::new();
            let mut c: usize = 0;
            while c < ncand
                invariant
                    groups@.len() == ngroups,
                    g2 < ngroups,
                    groups@[g2 as int].0@.len() == ncand,
                    forall|c2: int|
                        0 <= c2 < ncand ==> -MAX_SCORE <= #[trigger] groups@[g2 as int].0@[c2]
                            <= MAX_SCORE,
                    c <= ncand,
                    row@.len() == c,
                    forall|c2: int| 0 <= c2 < c ==> #[trigger] row@[c2] == groups@[g2 as int].0@[c2],
                decreases ncand - c,
            {
                row.push(groups[g2].0[c]);
                c += 1;
            }
            proof {
                assert(row@ =~= groups@[g2 as int].0@);
                lemma_group_total_mono(groups@, 0, g2 as int);
            }
            scores.push(row);
            proof {
                assert forall|g3: int, t2: int|
                    0 <= g3 < g2 && 0 <= t2 < groups@[g3].1 implies (#[trigger] scores@[
                group_total(groups@, g3) + t2])@ == groups@[g3].0@ by {
                    lemma_group_total_mono(groups@, 0, g3);
                    lemma_group_total_mono(groups@, g3 + 1, g2 as int);
                    assert(group_total(groups@, g3) + t2 < group_total(groups@, g3 + 1));
                }
            }
            t += 1;
        }
        g2 += 1;
    }
    let mut sim = Sim::new(ncand, total);
    sim.scores = scores;
    proof {
        assert forall|g3: int, t2: int|
            0 <= g3 < ngroups && 0 <= t2 < groups@[g3].1 implies (#[trigger] sim.scores@[
        group_total(groups@, g3) + t2])@ == groups@[g3].0@ by {
            lemma_group_total_mono(groups@, g3 + 1, ngroups as int);
            lemma_group_total_mono(groups@, 0, g3);
        }
    }
    sim
}

} // verus!
