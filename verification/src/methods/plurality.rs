//! Plurality voting, also known as first past the post.
//!
//! Every voter marks exactly one candidate, and the candidate with the
//! most marks wins. Honest voters mark their favorite; strategic voters
//! mark whichever of the two pre-election front-runners they prefer.

use super::results::{Strategy, WinnerAndRunnerup};
use super::tallies::{tallied, tally_votes, Tallies};
use crate::sim::Sim;
use crate::tables::filled;
use vstd::prelude::*;
use vstd::string::StringExecFns;

verus! {

/// How many of the first `n` voters put candidate `c` at the top of
/// their ranking.
pub open spec fn plu_cnt(ranks: Seq<Vec<usize>>, n: int, c: int) -> int
    decreases n,
{
    if n <= 0 {
        0
    } else {
        plu_cnt(ranks, n - 1, c) + if ranks[n - 1]@[0] == c {
            1int
        } else {
            0int
        }
    }
}

/// The candidate a strategic voter with preference order `row` votes
/// for: the first of the two front-runners `w`, `ru` in their ranking.
pub open spec fn two_way_pick(row: Seq<usize>, k: int, w: usize, ru: usize) -> usize
    decreases row.len() - k,
{
    if k < 0 || k >= row.len() {
        w
    } else if row[k] == w || row[k] == ru {
        row[k]
    } else {
        two_way_pick(row, k + 1, w, ru)
    }
}

/// How many of the first `n` strategic voters vote for candidate `c`.
pub open spec fn plu_strat_cnt(ranks: Seq<Vec<usize>>, n: int, c: int, w: usize, ru: usize) -> int
    decreases n,
{
    if n <= 0 {
        0
    } else {
        plu_strat_cnt(ranks, n - 1, c, w, ru) + if two_way_pick(ranks[n - 1]@, 0, w, ru) == c {
            1int
        } else {
            0int
        }
    }
}

/// `r` could be the outcome of an honest plurality poll on `sim`.
pub open spec fn honest_poll_ok(sim: Sim, r: WinnerAndRunnerup) -> bool {
    &&& r.winner.cand < sim.ncand
    &&& r.runnerup.cand < sim.ncand
    &&& r.winner.cand != r.runnerup.cand
    &&& forall|c: int|
        0 <= c < sim.ncand ==> #[trigger] plu_cnt(sim.ranks@, sim.ncit as int, c) <= plu_cnt(
            sim.ranks@,
            sim.ncit as int,
            r.winner.cand as int,
        )
}

/// The tallies are the two-way picks of every voter between the
/// front-runners of the poll `pre`.
pub open spec fn strat_tallies_for(sim: Sim, tallies: Seq<i64>, pre: WinnerAndRunnerup) -> bool {
    forall|c: int|
        0 <= c < sim.ncand ==> #[trigger] tallies[c] == plu_strat_cnt(
            sim.ranks@,
            sim.ncit as int,
            c,
            pre.winner.cand,
            pre.runnerup.cand,
        )
}

#[derive(Debug, Clone, Copy, PartialEq, Eq, Structural)]
pub struct Plurality {
    /// Honest voters vote for the candidate with the highest perceived
    /// utility. Strategic voters limit their choice to one of the two
    /// front-runners of a pre-election poll.
    pub strat: Strategy,
}

pub struct PluralitySim {
    pub params: Plurality,
    pub tallies: Tallies,
}

impl Plurality {
    pub fn new_sim(&self, sim: &Sim) -> (m: PluralitySim)
        requires
            sim.wf(),
        ensures
            m.params == *self,
            m.tallies@.len() == sim.ncand,
    {
        PluralitySim { params: *self, tallies: filled(sim.ncand, 0i64) }
    }
}

impl PluralitySim {
    /// Run the election. Honest: `tallies[c]` counts the voters whose
    /// top-ranked candidate is `c`. Strategic: `tallies[c]` counts the
    /// voters whose two-way pick between the front-runners of
    /// `honest_rslt` (or of a fresh honest poll when none is given) is
    /// `c`. The result reads the tallies as [`tallied`] describes.
    pub fn elect(&mut self, sim: &Sim, honest_rslt: Option<WinnerAndRunnerup>) -> (r:
        WinnerAndRunnerup)
        requires
            sim.wf(),
            sim.ranks_ok(),
            sim.ncand >= 2,
            honest_rslt is Some ==> honest_rslt->0.winner.cand < sim.ncand
                && honest_rslt->0.runnerup.cand < sim.ncand,
        ensures
            final(self).params == old(self).params,
            final(self).tallies@.len() == sim.ncand,
            tallied(final(self).tallies@, r),
            old(self).params.strat == Strategy::Honest ==> forall|c: int|
                0 <= c < sim.ncand ==> final(self).tallies@[c] == plu_cnt(
                    sim.ranks@,
                    sim.ncit as int,
                    c,
                ),
            old(self).params.strat == Strategy::Strategic && honest_rslt is Some
                ==> strat_tallies_for(*sim, final(self).tallies@, honest_rslt->0),
            old(self).params.strat == Strategy::Strategic && honest_rslt is None ==> exists|
                pre: WinnerAndRunnerup,
            |
                #[trigger] honest_poll_ok(*sim, pre) && strat_tallies_for(
                    *sim,
                    final(self).tallies@,
                    pre,
                ),
    {
        match self.params.strat {
            Strategy::Honest => {
                self.tallies = honest_tallies(sim);
            },
            Strategy::Strategic => {
                match honest_rslt {
                    Some(prev) => {
                        self.tallies = strategic_tallies(sim, prev.winner.cand, prev.runnerup.cand);
                    },
                    None => {
                        let honest = honest_tallies(sim);
                        let pre = tally_votes(&honest);
                        self.tallies = strategic_tallies(sim, pre.winner.cand, pre.runnerup.cand);
                        proof {
                            assert forall|c: int| 0 <= c < sim.ncand implies #[trigger] plu_cnt(
                                sim.ranks@,
                                sim.ncit as int,
                                c,
                            ) <= plu_cnt(
                                sim.ranks@,
                                sim.ncit as int,
                                pre.winner.cand as int,
                            ) by {
                                assert(honest@[c] <= pre.winner.score);
                                assert(honest@[pre.winner.cand as int] == plu_cnt(
                                    sim.ranks@,
                                    sim.ncit as int,
                                    pre.winner.cand as int,
                                ));
                            }
                            assert(honest_poll_ok(*sim, pre));
                            assert(strat_tallies_for(*sim, self.tallies@, pre));
                        }
                    },
                }
            },
        }
        tally_votes(&self.tallies)
    }

    pub fn name(&self) -> (s: String)
        ensures
            self.params.strat == Strategy::Honest ==> s@ == "Plurality, Honest"@,
            self.params.strat == Strategy::Strategic ==> s@ == "Plurality, Strategic"@,
    {
        match self.params.strat {
            Strategy::Honest => String::from_str("Plurality, Honest"),
            Strategy::Strategic => String::from_str("Plurality, Strategic"),
        }
    }

    pub fn colname(&self) -> (s: String)
        ensures
            self.params.strat == Strategy::Honest ==> s@ == "pl_h"@,
            self.params.strat == Strategy::Strategic ==> s@ == "pl_s"@,
    {
        match self.params.strat {
            Strategy::Honest => String::from_str("pl_h"),
            Strategy::Strategic => String::from_str("pl_s"),
        }
    }

    pub fn strat(&self) -> (s: Strategy)
        ensures
            s == self.params.strat,
    {
        self.params.strat
    }
}

/// Count every voter's top-ranked candidate.
fn honest_tallies(sim: &Sim) -> (tallies: Tallies)
    requires
        sim.wf(),
        sim.ranks_ok(),
    ensures
        tallies@.len() == sim.ncand,
        forall|c: int|
            0 <= c < sim.ncand ==> #[trigger] tallies@[c] == plu_cnt(
                sim.ranks@,
                sim.ncit as int,
                c,
            ),
        forall|c: int| 0 <= c < sim.ncand ==> 0 <= #[trigger] tallies@[c] <= sim.ncit,
{
    let ncand = sim.ncand;
    let ncit = sim.ncit;
    let mut tallies: Tallies = filled(ncand, 0i64);
    let mut v: usize = 0;
    while v < ncit
        invariant
            sim.wf(),
            sim.ranks_ok(),
            sim.ncand == ncand,
            sim.ncit == ncit,
            v <= ncit,
            tallies@.len() == ncand,
            forall|c: int|
                0 <= c < ncand ==> #[trigger] tallies@[c] == plu_cnt(sim.ranks@, v as int, c),
            forall|c: int| 0 <= c < ncand ==> 0 <= #[trigger] tallies@[c] <= v,
        decreases ncit - v,
    {
        let top = sim.ranks[v][0];
        let t = tallies[top];
        tallies.set(top, t + 1);
        v += 1;
    }
    tallies
}

/// Count every voter's preferred front-runner.
fn strategic_tallies(sim: &Sim, w: usize, ru: usize) -> (tallies: Tallies)
    requires
        sim.wf(),
        sim.ranks_ok(),
        w < sim.ncand,
        ru < sim.ncand,
    ensures
        tallies@.len() == sim.ncand,
        forall|c: int|
            0 <= c < sim.ncand ==> #[trigger] tallies@[c] == plu_strat_cnt(
                sim.ranks@,
                sim.ncit as int,
                c,
                w,
                ru,
            ),
{
    let ncand = sim.ncand;
    let ncit = sim.ncit;
    let mut tallies: Tallies = filled(ncand, 0i64);
    let mut v: usize = 0;
    while v < ncit
        invariant
            sim.wf(),
            sim.ranks_ok(),
            sim.ncand == ncand,
            sim.ncit == ncit,
            w < ncand,
            ru < ncand,
            v <= ncit,
            tallies@.len() == ncand,
            forall|c: int|
                0 <= c < ncand ==> #[trigger] tallies@[c] == plu_strat_cnt(
                    sim.ranks@,
                    v as int,
                    c,
                    w,
                    ru,
                ),
            forall|c: int| 0 <= c < ncand ==> 0 <= #[trigger] tallies@[c] <= v,
        decreases ncit - v,
    {
        let ghost row = sim.ranks@[v as int]@;
        let mut k: usize = 0;
        let mut pick: usize = w;
        let mut picked = false;
        while k < ncand && !picked
            invariant
                sim.wf(),
                sim.ranks_ok(),
                sim.ncand == ncand,
                sim.ncit == ncit,
                v < ncit,
                w < ncand,
                ru < ncand,
                k <= ncand,
                row == sim.ranks@[v as int]@,
                two_way_pick(row, 0, w, ru) == two_way_pick(row, k as int, w, ru),
                picked ==> pick == two_way_pick(row, 0, w, ru) && pick < ncand,
                !picked ==> forall|k2: int| 0 <= k2 < k ==> row[k2] != w && row[k2] != ru,
            decreases ncand - k, 1int - if picked {
                1int
            } else {
                0int
            },
    {
            proof {
                assert(sim.ranks@[v as int]@.len() == ncand);
            }
            let cand = sim.ranks[v][k];
            if cand == w || cand == ru {
                pick = cand;
                picked = true;
            } else {
                k += 1;
            }
        }
        proof {
            if !picked {
                assert(row.contains(w));
                let k0 = choose|k0: int| 0 <= k0 < row.len() && row[k0] == w;
                assert(false);
            }
        }
        let t = tallies[pick];
        tallies.set(pick, t + 1);
        v += 1;
    }
    tallies
}

} // verus!
