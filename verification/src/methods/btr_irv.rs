//! Bottom-two-runoff IRV.
//!
//! The same counting rounds as IRV, but each elimination is decided by
//! a head-to-head between the two weakest candidates: the one who loses
//! their pairwise contest is eliminated. This never eliminates a
//! Condorcet winner and tends to clear non-Smith candidates first.

use super::instant_runoff::{irv_tally, lemma_nonelim_exists, no_eliminations};
use super::results::{ElectResult, Strategy, WinnerAndRunnerup};
use super::tallies::Tallies;
use crate::sim::Sim;
use crate::sorting::count_true;
use crate::tables::filled;
use vstd::prelude::*;
use vstd::string::StringExecFns;

verus! {

/// State of one pass over the round tallies for BTR-IRV: the two
/// strongest and the two weakest standing candidates with their votes.
/// The ordering matches a stable ascending sort by (tally, index):
/// `top` is the latest maximum, `bot` the earliest minimum. `ncand`
/// stands in for "not seen yet".
pub struct BtrScan {
    pub top: int,
    pub topv: int,
    pub runup: int,
    pub runupv: int,
    pub bot: int,
    pub botv: int,
    pub bot2: int,
    pub bot2v: int,
}

pub open spec fn btr_scan(t: Seq<int>, elim: Seq<bool>, i: int, ncand: int, ncit: int) -> BtrScan
    decreases i,
{
    if i <= 0 {
        BtrScan {
            top: ncand,
            topv: 0,
            runup: ncand,
            runupv: 0,
            bot: ncand,
            botv: ncit + 1,
            bot2: ncand,
            bot2v: ncit + 1,
        }
    } else {
        let prev = btr_scan(t, elim, i - 1, ncand, ncit);
        if elim[i - 1] {
            prev
        } else {
            let votes = t[i - 1];
            let s1 = if votes >= prev.topv {
                BtrScan {
                    top: i - 1,
                    topv: votes,
                    runup: prev.top,
                    runupv: prev.topv,
                    ..prev
                }
            } else if votes >= prev.runupv {
                BtrScan { runup: i - 1, runupv: votes, ..prev }
            } else {
                prev
            };
            if votes < s1.botv {
                BtrScan { bot: i - 1, botv: votes, bot2: s1.bot, bot2v: s1.botv, ..s1 }
            } else if votes < s1.bot2v {
                BtrScan { bot2: i - 1, bot2v: votes, ..s1 }
            } else {
                s1
            }
        }
    }
}

/// Outcome of the BTR-IRV rounds: when two candidates remain or the
/// leader holds at least half the voters, the leader and runner-up
/// stand; otherwise the loser of the bottom-two head-to-head (by the
/// sign of the pairwise margin) is eliminated and counting repeats.
pub open spec fn btr_rounds(
    ranks: Seq<Vec<usize>>,
    margins: Seq<Vec<i64>>,
    elim: Seq<bool>,
    ncand: int,
    ncit: int,
    fuel: nat,
) -> BtrScan
    decreases fuel,
{
    let t = Seq::new(ncand as nat, |c: int| irv_tally(ranks, elim, ncit, c));
    let sc = btr_scan(t, elim, ncand, ncand, ncit);
    let standing = ncand - count_true(elim, ncand);
    if standing <= 2 || sc.topv >= (ncit + 1) / 2 {
        sc
    } else {
        let loser = if 0 <= sc.bot < ncand && 0 <= sc.bot2 < ncand && margins[sc.bot]@[sc.bot2]
            > 0 {
            sc.bot2
        } else {
            sc.bot
        };
        if 0 <= loser < ncand && !elim[loser] && fuel > 0 {
            btr_rounds(ranks, margins, elim.update(loser, true), ncand, ncit, (fuel - 1) as nat)
        } else {
            sc
        }
    }
}

/// A scan finds a leader as soon as one standing candidate has been
/// passed and a runner-up as soon as two have; a sentinel entry means
/// nothing was seen for it.
pub proof fn lemma_btr_scan_shape(t: Seq<int>, elim: Seq<bool>, i: int, ncand: int, ncit: int)
    requires
        0 <= i <= ncand,
        elim.len() == ncand,
        forall|j: int| 0 <= j < ncand ==> t[j] >= 0,
    ensures
        ({
            let sc = btr_scan(t, elim, i, ncand, ncit);
            &&& sc.top == ncand || 0 <= sc.top < i
            &&& sc.runup == ncand || 0 <= sc.runup < i
            &&& sc.top == ncand ==> sc.topv == 0
            &&& sc.runup == ncand ==> sc.runupv == 0
            &&& sc.top == ncand || sc.top != sc.runup
            &&& (exists|j: int| 0 <= j < i && !elim[j]) ==> sc.top < ncand
            &&& (exists|j1: int, j2: int| 0 <= j1 < j2 < i && !elim[j1] && !elim[j2])
                ==> sc.runup < ncand
        }),
    decreases i,
{
    if i > 0 {
        lemma_btr_scan_shape(t, elim, i - 1, ncand, ncit);
        if !elim[i - 1] {
            assert forall|j1: int, j2: int|
                0 <= j1 < j2 < i && !elim[j1] && !elim[j2] implies btr_scan(
                t,
                elim,
                i,
                ncand,
                ncit,
            ).runup < ncand by {
                if j2 < i - 1 {
                    assert(exists|k1: int, k2: int|
                        0 <= k1 < k2 < i - 1 && !elim[k1] && !elim[k2]);
                } else {
                    assert(exists|k: int| 0 <= k < i - 1 && !elim[k]);
                }
            }
        } else {
            assert forall|j: int| 0 <= j < i && !elim[j] implies exists|j2: int|
                0 <= j2 < i - 1 && !elim[j2] by {
                assert(j != i - 1);
            }
            assert forall|j1: int, j2: int|
                0 <= j1 < j2 < i && !elim[j1] && !elim[j2] implies exists|k1: int, k2: int|
                0 <= k1 < k2 < i - 1 && !elim[k1] && !elim[k2] by {
                assert(j1 != i - 1 && j2 != i - 1);
            }
        }
    }
}

/// When at least two candidates are standing, two standing candidates
/// exist at distinct positions.
proof fn lemma_two_standing(elim: Seq<bool>, ncand: int, nelim: int)
    requires
        elim.len() == ncand,
        0 <= nelim,
        nelim + 2 <= ncand,
        nelim == count_true(elim, ncand),
    ensures
        exists|j1: int, j2: int| 0 <= j1 < j2 < ncand && !elim[j1] && !elim[j2],
{
    lemma_nonelim_exists(elim, ncand, nelim);
    let j1 = choose|j: int| 0 <= j < ncand && !elim[j];
    let elim2 = elim.update(j1, true);
    crate::sorting::lemma_count_true_update(elim, j1, ncand);
    lemma_nonelim_exists(elim2, ncand, nelim + 1);
    let j2 = choose|j: int| 0 <= j < ncand && !elim2[j];
    assert(j2 != j1 && !elim[j2]);
    if j1 < j2 {
        assert(0 <= j1 < j2 < ncand && !elim[j1] && !elim[j2]);
    } else {
        assert(0 <= j2 < j1 < ncand && !elim[j2] && !elim[j1]);
    }
}

#[derive(Debug, Clone, Copy, PartialEq, Eq, Structural)]
pub struct BtrIrv {}

pub struct BtrIrvSim {
    pub p: BtrIrv,
    pub tallies: Tallies,
}

impl BtrIrv {
    pub fn new_sim(&self, sim: &Sim) -> (m: BtrIrvSim)
        requires
            sim.wf(),
        ensures
            m.tallies@.len() == sim.ncand,
    {
        BtrIrvSim { p: *self, tallies: filled(sim.ncand, 0i64) }
    }
}

impl BtrIrvSim {
    /// Run the rounds. The result is exactly what [`btr_rounds`] says
    /// of the rank table and margin matrix with nobody eliminated.
    pub fn elect(&mut self, sim: &Sim, _honest_rslt: Option<WinnerAndRunnerup>) -> (r:
        WinnerAndRunnerup)
        requires
            sim.wf(),
            sim.ranks_ok(),
            sim.ncand >= 2,
        ensures
            ({
                let out = btr_rounds(
                    sim.ranks@,
                    sim.i_beats_j_by@,
                    no_eliminations(sim.ncand as int),
                    sim.ncand as int,
                    sim.ncit as int,
                    (sim.ncand - 2) as nat,
                );
                &&& r.winner.cand == out.top
                &&& r.winner.score == out.topv
                &&& r.runnerup.cand == out.runup
                &&& r.runnerup.score == out.runupv
                &&& r.winner.cand < sim.ncand
                &&& r.runnerup.cand < sim.ncand
                &&& r.winner.cand != r.runnerup.cand
            }),
            final(self).p == old(self).p,
    {
        let ncand = sim.ncand;
        let ncit = sim.ncit;
        let mut eliminated: Vec<bool> = filled(ncand, false);
        let mut nelim: usize = 0;
        let ghost elim0 = eliminated@;
        proof {
            crate::sorting::lemma_count_all_false(eliminated@, ncand as int);
            assert(elim0 =~= no_eliminations(ncand as int));
        }
        loop
            invariant
                sim.wf(),
                sim.ranks_ok(),
                sim.ncand == ncand,
                sim.ncit == ncit,
                2 <= ncand,
                eliminated@.len() == ncand,
                nelim == count_true(eliminated@, ncand as int),
                nelim + 2 <= ncand,
                elim0 == no_eliminations(ncand as int),
                btr_rounds(
                    sim.ranks@,
                    sim.i_beats_j_by@,
                    elim0,
                    ncand as int,
                    ncit as int,
                    (ncand - 2) as nat,
                ) == btr_rounds(
                    sim.ranks@,
                    sim.i_beats_j_by@,
                    eliminated@,
                    ncand as int,
                    ncit as int,
                    (ncand - 2 - nelim) as nat,
                ),
            decreases ncand - nelim,
        {
            self.tallies = super::instant_runoff::irv_round_tallies(
                sim,
                &eliminated,
                Ghost(nelim as int),
            );
            let ghost tspec = Seq::new(
                ncand as nat,
                |c: int| irv_tally(sim.ranks@, eliminated@, ncit as int, c),
            );
            proof {
                assert forall|c: int| 0 <= c < ncand implies self.tallies@[c] == tspec[c] by {}
            }
            let mut top_cand: usize = ncand;
            let mut bot_cand: usize = ncand;
            let mut bot2_cand: usize = ncand;
            let mut top_votes: i64 = 0;
            let mut bot_votes: i64 = ncit as i64 + 1;
            let mut bot2_votes: i64 = ncit as i64 + 1;
            let mut runner_up: usize = ncand;
            let mut runup_votes: i64 = 0;
            let mut j: usize = 0;
            while j < ncand
                invariant
                    sim.wf(),
                    sim.ncand == ncand,
                    sim.ncit == ncit,
                    eliminated@.len() == ncand,
                    self.tallies@.len() == ncand,
                    tspec == Seq::new(
                        ncand as nat,
                        |c: int| irv_tally(sim.ranks@, eliminated@, ncit as int, c),
                    ),
                    forall|c: int| 0 <= c < ncand ==> self.tallies@[c] == tspec[c],
                    j <= ncand,
                    ({
                        let sc = btr_scan(tspec, eliminated@, j as int, ncand as int, ncit as int);
                        &&& top_cand == sc.top
                        &&& top_votes == sc.topv
                        &&& runner_up == sc.runup
                        &&& runup_votes == sc.runupv
                        &&& bot_cand == sc.bot
                        &&& bot_votes == sc.botv
                        &&& bot2_cand == sc.bot2
                        &&& bot2_votes == sc.bot2v
                    }),
                decreases ncand - j,
            {
                if !eliminated[j] {
                    let votes = self.tallies[j];
                    if votes >= top_votes {
                        runner_up = top_cand;
                        runup_votes = top_votes;
                        top_cand = j;
                        top_votes = votes;
                    } else if votes >= runup_votes {
                        runner_up = j;
                        runup_votes = votes;
                    }
                    if votes < bot_votes {
                        bot2_cand = bot_cand;
                        bot2_votes = bot_votes;
                        bot_cand = j;
                        bot_votes = votes;
                    } else if votes < bot2_votes {
                        bot2_cand = j;
                        bot2_votes = votes;
                    }
                }
                j += 1;
            }
            proof {
                lemma_btr_scan_shape(tspec, eliminated@, ncand as int, ncand as int, ncit as int);
            }
            let standing = ncand - nelim;
            let majority = (ncit + 1) / 2;
            if standing <= 2 || top_votes >= majority as i64 {
                proof {
                    lemma_nonelim_exists(eliminated@, ncand as int, nelim as int);
                    lemma_two_standing(eliminated@, ncand as int, nelim as int);
                }
                return WinnerAndRunnerup {
                    winner: ElectResult { cand: top_cand, score: top_votes },
                    runnerup: ElectResult { cand: runner_up, score: runup_votes },
                };
            } else {
                let loser = if bot_cand < ncand && bot2_cand < ncand
                    && sim.i_beats_j_by[bot_cand][bot2_cand] > 0 {
                    bot2_cand
                } else {
                    bot_cand
                };
                if loser < ncand && !eliminated[loser] && nelim + 2 < ncand {
                    // mirrors the recursion's guard; the scan's weakest
                    // candidates are always still standing here
                    proof {
                        crate::sorting::lemma_count_true_update(
                            eliminated@,
                            loser as int,
                            ncand as int,
                        );
                    }
                    eliminated.set(loser, true);
                    nelim += 1;
                } else {
                    proof {
                        lemma_nonelim_exists(eliminated@, ncand as int, nelim as int);
                        lemma_two_standing(eliminated@, ncand as int, nelim as int);
                    }
                    return WinnerAndRunnerup {
                        winner: ElectResult { cand: top_cand, score: top_votes },
                        runnerup: ElectResult { cand: runner_up, score: runup_votes },
                    };
                }
            }
        }
    }

    pub fn name(&self) -> (s: String)
        ensures
            s@ == "BTR-IRV, Honest"@,
    {
        String::from_str("BTR-IRV, Honest")
    }

    pub fn colname(&self) -> (s: String)
        ensures
            s@ == "BTR-IRV_h"@,
    {
        String::from_str("BTR-IRV_h")
    }

    pub fn strat(&self) -> (s: Strategy)
        ensures
            s == Strategy::Honest,
    {
        Strategy::Honest
    }
}

} // verus!
