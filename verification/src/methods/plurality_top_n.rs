//! Plurality-top-N, a simple (and poor) multi-winner method: tally
//! first-place votes once and elect the N biggest vote-getters.

use super::plurality::plu_cnt;
use super::results::{ElectResult, WinnerAndRunnerup};
use crate::sim::Sim;
use crate::sorting::{id_before, sorted_ids_desc, sorted_perm};
use crate::tables::filled;
use vstd::prelude::*;

verus! {

#[derive(Debug, Clone, Copy, PartialEq, Eq, Structural)]
pub struct PluralityTopN {}

pub struct PluralityTopNSim {
    pub p: PluralityTopN,
    pub tallies: super::tallies::Tallies,
}

impl PluralityTopN {
    pub fn new_sim(&self, sim: &Sim) -> (m: PluralityTopNSim)
        requires
            sim.wf(),
        ensures
            m.tallies@.len() == sim.ncand,
    {
        PluralityTopNSim { p: *self, tallies: filled(sim.ncand, 0i64) }
    }
}

impl PluralityTopNSim {
    /// Elect the `nwinners` candidates with the most first-place votes,
    /// in descending order of votes (ties toward the smaller index),
    /// each scored with their own tally.
    pub fn multi_elect(
        &mut self,
        sim: &Sim,
        _honest_rslt: Option<WinnerAndRunnerup>,
        nwinners: usize,
    ) -> (winners: Vec<ElectResult>)
        requires
            sim.wf(),
            sim.ranks_ok(),
            nwinners <= sim.ncand,
        ensures
            final(self).p == old(self).p,
            final(self).tallies@.len() == sim.ncand,
            forall|c: int|
                0 <= c < sim.ncand ==> #[trigger] final(self).tallies@[c] == plu_cnt(
                    sim.ranks@,
                    sim.ncit as int,
                    c,
                ),
            winners@.len() == nwinners,
            exists|order: Seq<usize>|
                #[trigger] sorted_perm(final(self).tallies@, order) && forall|k: int|
                    0 <= k < nwinners ==> winners@[k] == (ElectResult {
                        cand: order[k],
                        score: final(self).tallies@[order[k] as int],
                    }),
    {
        self.tallies = plurality_tallies(sim);
        let order = sorted_ids_desc(&self.tallies);
        let mut winners: Vec<ElectResult> = Vec::new();
        let mut k: usize = 0;
        while k < nwinners
            invariant
                self.tallies@.len() == sim.ncand,
                sorted_perm(self.tallies@, order@),
                nwinners <= sim.ncand,
                k <= nwinners,
                winners@.len() == k,
                forall|i: int|
                    0 <= i < k ==> winners@[i] == (ElectResult {
                        cand: order@[i],
                        score: self.tallies@[order@[i] as int],
                    }),
            decreases nwinners - k,
        {
            let cand = order[k];
            winners.push(ElectResult { cand, score: self.tallies[cand] });
            k += 1;
        }
        winners
    }
}

/// Count every voter's top-ranked candidate.
fn plurality_tallies(sim: &Sim) -> (tallies: super::tallies::Tallies)
    requires
        sim.wf(),
        sim.ranks_ok(),
    ensures
        tallies@.len() == sim.ncand,
        forall|c: int|
            0 <= c < sim.ncand ==> #[trigger] tallies@[c] == plu_cnt(
                sim.ranks@,
                sim.ncit as int,
                c,
            ),
{
    let ncand = sim.ncand;
    let ncit = sim.ncit;
    let mut tallies: super::tallies::Tallies = filled(ncand, 0i64);
    let mut v: usize = 0;
    while v < ncit
        invariant
            sim.wf(),
            sim.ranks_ok(),
            sim.ncand == ncand,
            sim.ncit == ncit,
            v <= ncit,
            tallies@.len() == ncand,
            forall|c: int|
                0 <= c < ncand ==> #[trigger] tallies@[c] == plu_cnt(sim.ranks@, v as int, c),
            forall|c: int| 0 <= c < ncand ==> 0 <= #[trigger] tallies@[c] <= v,
        decreases ncit - v,
    {
        let top = sim.ranks[v][0];
        let t = tallies[top];
        tallies.set(top, t + 1);
        v += 1;
    }
    tallies
}

} // verus!
