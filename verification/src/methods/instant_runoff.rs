//! Instant-runoff voting (IRV).
//!
//! Rounds of counting: every voter's ballot counts for their favorite
//! candidate still standing; the candidate with the fewest votes is
//! eliminated until someone holds a majority of the voters or the
//! runner-up and the bottom candidate coincide.

use super::results::{ElectResult, Strategy, WinnerAndRunnerup};
use super::tallies::Tallies;
use crate::sim::Sim;
use crate::sorting::count_true;
use crate::tables::filled;
use vstd::prelude::*;
use vstd::string::StringExecFns;

verus! {

/// Position of the first candidate on ballot `row` (from position `k`
/// on) who is not eliminated; `row.len()` if all are.
pub open spec fn first_pref(row: Seq<usize>, elim: Seq<bool>, k: int) -> int
    decreases row.len() - k,
{
    if k < 0 || k >= row.len() {
        row.len() as int
    } else if !elim[row[k] as int] {
        k
    } else {
        first_pref(row, elim, k + 1)
    }
}

/// The candidate ballot `row` currently counts for, or `-1` when every
/// candidate on it is eliminated.
pub open spec fn first_choice(row: Seq<usize>, elim: Seq<bool>) -> int {
    let k = first_pref(row, elim, 0);
    if k < row.len() {
        row[k] as int
    } else {
        -1
    }
}

/// Current round tally of candidate `c` over the first `n` voters.
pub open spec fn irv_tally(ranks: Seq<Vec<usize>>, elim: Seq<bool>, n: int, c: int) -> int
    decreases n,
{
    if n <= 0 {
        0
    } else {
        irv_tally(ranks, elim, n - 1, c) + if first_choice(ranks[n - 1]@, elim) == c {
            1int
        } else {
            0int
        }
    }
}

/// State of one pass over the round tallies: the current leader, the
/// runner-up, and the weakest candidate, with their votes. `ncand`
/// stands in as "not seen yet".
pub struct RoundScan {
    pub top: int,
    pub topv: int,
    pub runup: int,
    pub runupv: int,
    pub bot: int,
    pub botv: int,
}

/// The scan the counting round makes over tallies `t[0..i]`, skipping
/// eliminated candidates: a tally at least as large as the leader's
/// displaces the leader (the old leader becomes runner-up), a tally
/// above the runner-up's displaces the runner-up, and a tally strictly
/// below the weakest seen becomes the weakest.
pub open spec fn irv_scan(t: Seq<int>, elim: Seq<bool>, i: int, ncand: int, ncit: int) -> RoundScan
    decreases i,
{
    if i <= 0 {
        RoundScan { top: ncand, topv: 0, runup: ncand, runupv: 0, bot: ncand, botv: ncit }
    } else {
        let prev = irv_scan(t, elim, i - 1, ncand, ncit);
        if elim[i - 1] {
            prev
        } else {
            let votes = t[i - 1];
            let s1 = if votes >= prev.topv {
                RoundScan {
                    top: i - 1,
                    topv: votes,
                    runup: prev.top,
                    runupv: prev.topv,
                    bot: prev.bot,
                    botv: prev.botv,
                }
            } else if votes > prev.runupv {
                RoundScan {
                    top: prev.top,
                    topv: prev.topv,
                    runup: i - 1,
                    runupv: votes,
                    bot: prev.bot,
                    botv: prev.botv,
                }
            } else {
                prev
            };
            if votes < s1.botv {
                RoundScan {
                    top: s1.top,
                    topv: s1.topv,
                    runup: s1.runup,
                    runupv: s1.runupv,
                    bot: i - 1,
                    botv: votes,
                }
            } else {
                s1
            }
        }
    }
}

/// The elimination set of the first round: nobody is out yet.
pub open spec fn no_eliminations(ncand: int) -> Seq<bool> {
    Seq::new(ncand as nat, |c: int| false)
}

/// The tallies every ballot produces against the eliminated set.
pub open spec fn round_tallies(ranks: Seq<Vec<usize>>, elim: Seq<bool>, ncand: int, ncit: int) -> Seq<
    int,
> {
    Seq::new(ncand as nat, |c: int| irv_tally(ranks, elim, ncit, c))
}

/// Outcome of running IRV rounds until a winner appears. Each round
/// eliminates the scan's weakest candidate; the rounds stop when the
/// leader holds at least half the voters (rounded up) or the runner-up
/// and the weakest coincide. `fuel` bounds the recursion; it never runs
/// out when it starts at the candidate count.
pub open spec fn irv_rounds(
    ranks: Seq<Vec<usize>>,
    elim: Seq<bool>,
    ncand: int,
    ncit: int,
    fuel: nat,
) -> RoundScan
    decreases fuel,
{
    let t = round_tallies(ranks, elim, ncand, ncit);
    let sc = irv_scan(t, elim, ncand, ncand, ncit);
    if sc.topv >= (ncit + 1) / 2 || sc.runup == sc.bot {
        sc
    } else if 0 <= sc.bot < ncand && !elim[sc.bot] && fuel > 0 {
        irv_rounds(ranks, elim.update(sc.bot, true), ncand, ncit, (fuel - 1) as nat)
    } else {
        sc
    }
}

/// A scan never names an eliminated candidate, reports the leader's
/// own tally, and finds a leader as soon as one standing candidate has
/// been passed.
pub proof fn lemma_scan_shape(t: Seq<int>, elim: Seq<bool>, i: int, ncand: int, ncit: int)
    requires
        0 <= i <= ncand,
        elim.len() == ncand,
        forall|j: int| 0 <= j < ncand ==> t[j] >= 0,
    ensures
        ({
            let sc = irv_scan(t, elim, i, ncand, ncit);
            &&& sc.top == ncand || (0 <= sc.top < i && !elim[sc.top] && sc.topv == t[sc.top])
            &&& sc.runup == ncand || (0 <= sc.runup < i && !elim[sc.runup] && sc.runupv == t[
            sc.runup])
            &&& sc.bot == ncand || (0 <= sc.bot < i && !elim[sc.bot] && sc.botv == t[sc.bot])
            &&& sc.top == ncand ==> sc.topv == 0
            &&& (exists|j: int| 0 <= j < i && !elim[j]) ==> sc.top < ncand
        }),
    decreases i,
{
    if i > 0 {
        lemma_scan_shape(t, elim, i - 1, ncand, ncit);
        let prev = irv_scan(t, elim, i - 1, ncand, ncit);
        if !elim[i - 1] {
        } else {
            assert forall|j: int| 0 <= j < i && !elim[j] implies exists|j2: int|
                0 <= j2 < i - 1 && !elim[j2] by {
                assert(j != i - 1);
            }
        }
    }
}

#[derive(Debug, Clone, Copy, PartialEq, Eq, Structural)]
pub struct InstantRunoff {}

pub struct IRVSim {
    pub p: InstantRunoff,
    pub tallies: Tallies,
}

impl InstantRunoff {
    pub fn new_sim(&self, sim: &Sim) -> (m: IRVSim)
        requires
            sim.wf(),
        ensures
            m.tallies@.len() == sim.ncand,
    {
        IRVSim { p: *self, tallies: filled(sim.ncand, 0i64) }
    }
}

impl IRVSim {
    /// Run the rounds. The result is exactly what [`irv_rounds`] says
    /// of the rank table with nobody eliminated: the final round's
    /// leader and runner-up with their round tallies.
    pub fn elect(&mut self, sim: &Sim, _honest_rslt: Option<WinnerAndRunnerup>) -> (r:
        WinnerAndRunnerup)
        requires
            sim.wf(),
            sim.ranks_ok(),
            sim.ncand >= 2,
        ensures
            ({
                let out = irv_rounds(
                    sim.ranks@,
                    no_eliminations(sim.ncand as int),
                    sim.ncand as int,
                    sim.ncit as int,
                    (sim.ncand - 1) as nat,
                );
                &&& r.winner.cand == out.top
                &&& r.winner.score == out.topv
                &&& r.runnerup.cand == out.runup
                &&& r.runnerup.score == out.runupv
                &&& r.winner.cand < sim.ncand
            }),
            final(self).p == old(self).p,
    {
        let ncand = sim.ncand;
        let ncit = sim.ncit;
        let mut eliminated: Vec<bool> = filled(ncand, false);
        let mut nelim: usize = 0;
        let ghost elim0 = eliminated@;
        proof {
            crate::sorting::lemma_count_all_false(eliminated@, ncand as int);
            assert(elim0 =~= no_eliminations(ncand as int));
        }
        loop
            invariant
                sim.wf(),
                sim.ranks_ok(),
                sim.ncand == ncand,
                sim.ncit == ncit,
                2 <= ncand,
                eliminated@.len() == ncand,
                nelim == count_true(eliminated@, ncand as int),
                nelim < ncand,
                elim0 == no_eliminations(ncand as int),
                irv_rounds(sim.ranks@, elim0, ncand as int, ncit as int, (ncand - 1) as nat)
                    == irv_rounds(
                    sim.ranks@,
                    eliminated@,
                    ncand as int,
                    ncit as int,
                    (ncand - 1 - nelim) as nat,
                ),
            decreases ncand - nelim,
        {
            self.tallies = irv_round_tallies(sim, &eliminated, Ghost(nelim as int));
            let ghost tspec = round_tallies(sim.ranks@, eliminated@, ncand as int, ncit as int);
            proof {
                assert forall|c: int| 0 <= c < ncand implies self.tallies@[c] == tspec[c] by {}
            }
            let mut top_cand: usize = ncand;
            let mut bot_cand: usize = ncand;
            let mut top_votes: i64 = 0;
            let mut bot_votes: i64 = ncit as i64;
            let mut runner_up: usize = ncand;
            let mut runup_votes: i64 = 0;
            let mut j: usize = 0;
            while j < ncand
                invariant
                    sim.wf(),
                    sim.ncand == ncand,
                    sim.ncit == ncit,
                    eliminated@.len() == ncand,
                    self.tallies@.len() == ncand,
                    tspec == round_tallies(sim.ranks@, eliminated@, ncand as int, ncit as int),
                    forall|c: int| 0 <= c < ncand ==> self.tallies@[c] == tspec[c],
                    j <= ncand,
                    ({
                        let sc = irv_scan(tspec, eliminated@, j as int, ncand as int, ncit as int);
                        &&& top_cand == sc.top
                        &&& top_votes == sc.topv
                        &&& runner_up == sc.runup
                        &&& runup_votes == sc.runupv
                        &&& bot_cand == sc.bot
                        &&& bot_votes == sc.botv
                    }),
                decreases ncand - j,
            {
                if !eliminated[j] {
                    let votes = self.tallies[j];
                    if votes >= top_votes {
                        runner_up = top_cand;
                        runup_votes = top_votes;
                        top_cand = j;
                        top_votes = votes;
                    } else if votes > runup_votes {
                        runner_up = j;
                        runup_votes = votes;
                    }
                    if votes < bot_votes {
                        bot_cand = j;
                        bot_votes = votes;
                    }
                }
                j += 1;
            }
            proof {
                lemma_scan_shape(tspec, eliminated@, ncand as int, ncand as int, ncit as int);
            }
            let majority = (ncit + 1) / 2;
            if top_votes >= majority as i64 || runner_up == bot_cand {
                proof {
                    lemma_nonelim_exists(eliminated@, ncand as int, nelim as int);
                    let ghost cur = irv_rounds(
                        sim.ranks@,
                        eliminated@,
                        ncand as int,
                        ncit as int,
                        (ncand - 1 - nelim) as nat,
                    );
                    let ghost sc = irv_scan(tspec, eliminated@, ncand as int, ncand as int, ncit as int);
                    assert(majority as int == (ncit as int + 1) / 2);
                    assert(sc.topv >= (ncit as int + 1) / 2 || sc.runup == sc.bot);
                    assert(cur == sc);
                }
                return WinnerAndRunnerup {
                    winner: ElectResult { cand: top_cand, score: top_votes },
                    runnerup: ElectResult { cand: runner_up, score: runup_votes },
                };
            } else if bot_cand < ncand && !eliminated[bot_cand] && nelim + 1 < ncand {
                // mirrors the recursion's guard; the weakest candidate
                // found by the scan is always still standing here
                proof {
                    crate::sorting::lemma_count_true_update(
                        eliminated@,
                        bot_cand as int,
                        ncand as int,
                    );
                }
                eliminated.set(bot_cand, true);
                nelim += 1;
            } else {
                proof {
                    lemma_nonelim_exists(eliminated@, ncand as int, nelim as int);
                }
                return WinnerAndRunnerup {
                    winner: ElectResult { cand: top_cand, score: top_votes },
                    runnerup: ElectResult { cand: runner_up, score: runup_votes },
                };
            }
        }
    }

    pub fn name(&self) -> (s: String)
        ensures
            s@ == "IRV, Honest"@,
    {
        String::from_str("IRV, Honest")
    }

    pub fn colname(&self) -> (s: String)
        ensures
            s@ == "IRV_h"@,
    {
        String::from_str("IRV_h")
    }

    pub fn strat(&self) -> (s: Strategy)
        ensures
            s == Strategy::Honest,
    {
        Strategy::Honest
    }
}

/// Some candidate is still standing when fewer than all are eliminated.
pub proof fn lemma_nonelim_exists(elim: Seq<bool>, ncand: int, nelim: int)
    requires
        elim.len() == ncand,
        0 <= nelim < ncand,
        nelim == count_true(elim, ncand),
    ensures
        exists|c: int| 0 <= c < ncand && !elim[c],
{
    if forall|c: int| 0 <= c < ncand ==> elim[c] {
        crate::sorting::lemma_count_all_true(elim, ncand);
        assert(false);
    }
}

/// One round of tallies: each voter's ballot counts for their first
/// standing candidate.
pub(crate) fn irv_round_tallies(
    sim: &Sim,
    eliminated: &Vec<bool>,
    Ghost(nelim): Ghost<int>,
) -> (tallies: Tallies)
    requires
        sim.wf(),
        sim.ranks_ok(),
        eliminated@.len() == sim.ncand,
        0 <= nelim < sim.ncand,
        nelim == count_true(eliminated@, sim.ncand as int),
    ensures
        tallies@.len() == sim.ncand,
        forall|c: int|
            0 <= c < sim.ncand ==> #[trigger] tallies@[c] == irv_tally(
                sim.ranks@,
                eliminated@,
                sim.ncit as int,
                c,
            ),
        forall|c: int| 0 <= c < sim.ncand ==> 0 <= #[trigger] tallies@[c],
{
    let ncand = sim.ncand;
    let ncit = sim.ncit;
    let mut tallies: Tallies = filled(ncand, 0i64);
    let mut v: usize = 0;
    while v < ncit
        invariant
            sim.wf(),
            sim.ranks_ok(),
            sim.ncand == ncand,
            sim.ncit == ncit,
            eliminated@.len() == ncand,
            0 <= nelim < ncand,
            nelim == count_true(eliminated@, ncand as int),
            v <= ncit,
            tallies@.len() == ncand,
            forall|c: int|
                0 <= c < ncand ==> #[trigger] tallies@[c] == irv_tally(
                    sim.ranks@,
                    eliminated@,
                    v as int,
                    c,
                ),
            forall|c: int| 0 <= c < ncand ==> 0 <= #[trigger] tallies@[c] <= v,
        decreases ncit - v,
    {
        let ghost row = sim.ranks@[v as int]@;
        let mut k: usize = 0;
        let mut pick: usize = 0;
        let mut picked = false;
        while k < ncand && !picked
            invariant
                sim.wf(),
                sim.ranks_ok(),
                sim.ncand == ncand,
                sim.ncit == ncit,
                eliminated@.len() == ncand,
                v < ncit,
                k <= ncand,
                row == sim.ranks@[v as int]@,
                first_pref(row, eliminated@, 0) == first_pref(row, eliminated@, k as int),
                picked ==> k < ncand && first_pref(row, eliminated@, k as int) == k && pick == row[k as int]
                    && pick < ncand,
                !picked ==> forall|k2: int| 0 <= k2 < k ==> eliminated@[row[k2] as int],
            decreases ncand - k, 1int - if picked {
                1int
            } else {
                0int
            },
        {
            let cand = sim.ranks[v][k];
            if !eliminated[cand] {
                pick = cand;
                picked = true;
            } else {
                k += 1;
            }
        }
        proof {
            if !picked {
                lemma_nonelim_exists(eliminated@, ncand as int, nelim);
                let c0 = choose|c0: int| 0 <= c0 < ncand && !eliminated@[c0];
                assert(row.contains(c0 as usize));
                let k0 = choose|k0: int| 0 <= k0 < row.len() && row[k0] == c0 as usize;
                assert(false);
            }
            assert(first_choice(row, eliminated@) == pick as int);
        }
        let t = tallies[pick];
        tallies.set(pick, t + 1);
        v += 1;
    }
    tallies
}

} // verus!
