//! The Minimax Condorcet method.
//!
//! Each candidate is judged by their worst pairwise result: the minimum
//! signed margin against any opponent. The winner is the candidate whose
//! worst result is best; a Condorcet winner (everyone else defeated) has
//! a non-negative worst margin and always wins.

use super::results::{Strategy, WinnerAndRunnerup};
use super::tallies::{tallied, tally_votes, Tallies};
use crate::sim::Sim;
use vstd::prelude::*;
use vstd::string::StringExecFns;

verus! {

/// Minimum margin of candidate `c` against opponents `0..n` (skipping
/// `c` itself); `i64::MAX` while no opponent has been seen.
pub open spec fn min_margin(m: Seq<Vec<i64>>, c: int, n: int) -> int
    decreases n,
{
    if n <= 0 {
        0x7fff_ffff_ffff_ffff
    } else {
        let rest = min_margin(m, c, n - 1);
        if n - 1 != c && m[c]@[n - 1] < rest {
            m[c]@[n - 1] as int
        } else {
            rest
        }
    }
}

#[derive(Debug, Clone, Copy, PartialEq, Eq, Structural)]
pub struct Minimax {}

pub struct MinimaxSim {
    pub p: Minimax,
    /// The lowest margin of victory (negative when the candidate loses
    /// a matchup) each candidate has over the others.
    pub min_victory_margin: Vec<i64>,
}

impl Minimax {
    pub fn new_sim(&self, sim: &Sim) -> (m: MinimaxSim)
        requires
            sim.wf(),
        ensures
            m.min_victory_margin@.len() == sim.ncand,
    {
        MinimaxSim { p: *self, min_victory_margin: crate::tables::filled(sim.ncand, 0i64) }
    }
}

impl MinimaxSim {
    /// Run the election: compute each candidate's worst pairwise margin
    /// and pick the two candidates whose worst margins are largest.
    pub fn elect(&mut self, sim: &Sim, _honest_rslt: Option<WinnerAndRunnerup>) -> (r:
        WinnerAndRunnerup)
        requires
            sim.wf(),
            sim.ncand >= 2,
        ensures
            final(self).min_victory_margin@.len() == sim.ncand,
            forall|c: int|
                0 <= c < sim.ncand ==> #[trigger] final(self).min_victory_margin@[c] == min_margin(
                    sim.i_beats_j_by@,
                    c,
                    sim.ncand as int,
                ),
            tallied(final(self).min_victory_margin@, r),
            final(self).p == old(self).p,
    {
        let ncand = sim.ncand;
        let mut mvm: Tallies = Vec::new();
        let mut c: usize = 0;
        while c < ncand
            invariant
                sim.wf(),
                sim.ncand == ncand,
                c <= ncand,
                mvm@.len() == c,
                forall|d: int|
                    0 <= d < c ==> #[trigger] mvm@[d] == min_margin(
                        sim.i_beats_j_by@,
                        d,
                        ncand as int,
                    ),
            decreases ncand - c,
        {
            let mut cur: i64 = i64::MAX;
            let mut j: usize = 0;
            while j < ncand
                invariant
                    sim.wf(),
                    sim.ncand == ncand,
                    c < ncand,
                    j <= ncand,
                    cur == min_margin(sim.i_beats_j_by@, c as int, j as int),
                decreases ncand - j,
            {
                if j != c && sim.i_beats_j_by[c][j] < cur {
                    cur = sim.i_beats_j_by[c][j];
                }
                j += 1;
            }
            mvm.push(cur);
            c += 1;
        }
        self.min_victory_margin = mvm;
        tally_votes(&self.min_victory_margin)
    }

    pub fn name(&self) -> (s: String)
        ensures
            s@ == "Minimax, Honest"@,
    {
        String::from_str("Minimax, Honest")
    }

    pub fn colname(&self) -> (s: String)
        ensures
            s@ == "MM_h"@,
    {
        String::from_str("MM_h")
    }

    pub fn strat(&self) -> (s: Strategy)
        ensures
            s == Strategy::Honest,
    {
        Strategy::Honest
    }
}

} // verus!
