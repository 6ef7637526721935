//! STAR voting: Score Then Automatic Runoff.
//!
//! Voters fill range ballots exactly as in range voting. The two
//! candidates with the highest summed grades advance to a runoff, which
//! is decided by how many voters graded one strictly above the other;
//! the reported scores are those preference counts.

use super::rangevoting::{
    fill_range_ballot, fill_range_ballot_strat, range_grade, range_grade_strat,
};
use super::results::{Strategy, WinnerAndRunnerup};
use super::tallies::{tallied, tally_votes, Tallies};
use crate::sim::Sim;
use crate::tables::{filled, filled_matrix, usize_to_string};
use crate::{MAX_RANKS, MAX_STRETCH};
use vstd::prelude::*;
use vstd::string::StringExecFns;

verus! {

/// The grade a STAR ballot gives candidate `c`, honest or strategic.
pub open spec fn star_grade(
    row: Seq<i64>,
    c: int,
    nranks: int,
    strat: Strategy,
    stretch: int,
    pw: usize,
    pru: usize,
) -> int {
    match strat {
        Strategy::Honest => range_grade(row, c, nranks),
        Strategy::Strategic => range_grade_strat(
            row,
            c,
            nranks,
            row[pw as int] + row[pru as int],
            stretch,
        ),
    }
}

/// Sum of grades for candidate `c` over the first `n` voters.
pub open spec fn star_cnt(
    scores: Seq<Vec<i64>>,
    n: int,
    c: int,
    nranks: int,
    strat: Strategy,
    stretch: int,
    pw: usize,
    pru: usize,
) -> int
    decreases n,
{
    if n <= 0 {
        0
    } else {
        star_cnt(scores, n - 1, c, nranks, strat, stretch, pw, pru) + star_grade(
            scores[n - 1]@,
            c,
            nranks,
            strat,
            stretch,
            pw,
            pru,
        )
    }
}

/// How many of the first `n` voters grade `i` strictly above `j`.
pub open spec fn star_pref_cnt(
    scores: Seq<Vec<i64>>,
    n: int,
    i: int,
    j: int,
    nranks: int,
    strat: Strategy,
    stretch: int,
    pw: usize,
    pru: usize,
) -> int
    decreases n,
{
    if n <= 0 {
        0
    } else {
        star_pref_cnt(scores, n - 1, i, j, nranks, strat, stretch, pw, pru) + if star_grade(
            scores[n - 1]@,
            i,
            nranks,
            strat,
            stretch,
            pw,
            pru,
        ) > star_grade(scores[n - 1]@, j, nranks, strat, stretch, pw, pru) {
            1int
        } else {
            0int
        }
    }
}

/// The reported result, given that `a` and `b` hold the two highest
/// grade sums: whoever of the two more voters strictly prefer wins the
/// runoff (ties keep `a`), and both report their preference counts.
pub open spec fn star_pick(
    tallies: Seq<i64>,
    pm: Seq<Vec<i64>>,
    a: usize,
    b: usize,
    r: WinnerAndRunnerup,
) -> bool {
    &&& a < tallies.len()
    &&& b < tallies.len()
    &&& a != b
    &&& forall|j: int| 0 <= j < tallies.len() ==> tallies[j] <= tallies[a as int]
    &&& forall|j: int| 0 <= j < tallies.len() && j != a ==> tallies[j] <= tallies[b as int]
    &&& if pm[a as int]@[b as int] >= pm[b as int]@[a as int] {
        r.winner.cand == a && r.winner.score == pm[a as int]@[b as int] && r.runnerup.cand == b
            && r.runnerup.score == pm[b as int]@[a as int]
    } else {
        r.winner.cand == b && r.winner.score == pm[b as int]@[a as int] && r.runnerup.cand == a
            && r.runnerup.score == pm[a as int]@[b as int]
    }
}

#[derive(Debug, Clone, Copy, PartialEq, Eq, Structural)]
pub struct STAR {
    pub strat: Strategy,
    pub nranks: i64,
    pub strategic_stretch_factor: i64,
}

pub struct STARSim {
    pub params: STAR,
    pub tallies: Tallies,
    /// `preference_matrix[i][j]` counts the voters who grade `i`
    /// strictly above `j`; both entries of a pair can stay low when
    /// voters grade the two alike.
    pub preference_matrix: Vec<Vec<i64>>,
}

impl STAR {
    pub fn new_sim(&self, sim: &Sim) -> (m: STARSim)
        requires
            sim.wf(),
        ensures
            m.params == *self,
            m.tallies@.len() == sim.ncand,
    {
        STARSim {
            params: *self,
            tallies: filled(sim.ncand, 0i64),
            preference_matrix: filled_matrix(sim.ncand, sim.ncand, 0i64),
        }
    }
}

impl STARSim {
    /// Run the election: sum ballot grades, count pairwise ballot
    /// preferences, and run the automatic runoff between the two
    /// highest-scoring candidates.
    pub fn elect(&mut self, sim: &Sim, honest_rslt: Option<WinnerAndRunnerup>) -> (r:
        WinnerAndRunnerup)
        requires
            sim.wf(),
            sim.ncand >= 2,
            2 <= old(self).params.nranks <= MAX_RANKS,
            1 <= old(self).params.strategic_stretch_factor <= MAX_STRETCH,
            old(self).params.strat == Strategy::Strategic ==> (honest_rslt matches Some(pre)
                && pre.winner.cand < sim.ncand && pre.runnerup.cand < sim.ncand),
        ensures
            final(self).params == old(self).params,
            final(self).tallies@.len() == sim.ncand,
            final(self).preference_matrix@.len() == sim.ncand,
            ({
                let strat = old(self).params.strat;
                let nranks = old(self).params.nranks as int;
                let stretch = old(self).params.strategic_stretch_factor as int;
                let pw = if honest_rslt is Some {
                    honest_rslt->0.winner.cand
                } else {
                    0
                };
                let pru = if honest_rslt is Some {
                    honest_rslt->0.runnerup.cand
                } else {
                    0
                };
                &&& forall|c: int|
                    0 <= c < sim.ncand ==> #[trigger] final(self).tallies@[c] == star_cnt(
                        sim.scores@,
                        sim.ncit as int,
                        c,
                        nranks,
                        strat,
                        stretch,
                        pw,
                        pru,
                    )
                &&& forall|i: int, j: int|
                    0 <= i < sim.ncand && 0 <= j < sim.ncand
                        ==> #[trigger] final(self).preference_matrix@[i]@[j] == star_pref_cnt(
                        sim.scores@,
                        sim.ncit as int,
                        i,
                        j,
                        nranks,
                        strat,
                        stretch,
                        pw,
                        pru,
                    )
                &&& exists|a: usize, b: usize|
                    #[trigger] star_pick(
                        final(self).tallies@,
                        final(self).preference_matrix@,
                        a,
                        b,
                        r,
                    )
            }),
    {
        let ncand = sim.ncand;
        let ncit = sim.ncit;
        let nranks = self.params.nranks;
        let stretch = self.params.strategic_stretch_factor;
        let strategic = match self.params.strat {
            Strategy::Honest => false,
            Strategy::Strategic => true,
        };
        let (pw, pru) = match honest_rslt {
            Some(pre) => (pre.winner.cand, pre.runnerup.cand),
            None => (0usize, 0usize),
        };
        let ghost strat = self.params.strat;
        let mut tallies: Tallies = filled(ncand, 0i64);
        let mut pm: Vec<Vec<i64>> = filled_matrix(ncand, ncand, 0i64);
        let mut ballot: Tallies = filled(ncand, 0i64);
        let mut v: usize = 0;
        while v < ncit
            invariant
                sim.wf(),
                sim.ncand == ncand,
                sim.ncit == ncit,
                2 <= nranks <= MAX_RANKS,
                1 <= stretch <= MAX_STRETCH,
                strategic == (strat == Strategy::Strategic),
                strategic ==> pw < ncand && pru < ncand,
                v <= ncit,
                tallies@.len() == ncand,
                ballot@.len() == ncand,
                pm@.len() == ncand,
                forall|i: int| 0 <= i < ncand ==> (#[trigger] pm@[i])@.len() == ncand,
                forall|c: int|
                    0 <= c < ncand ==> #[trigger] tallies@[c] == star_cnt(
                        sim.scores@,
                        v as int,
                        c,
                        nranks as int,
                        strat,
                        stretch as int,
                        pw,
                        pru,
                    ),
                forall|c: int|
                    0 <= c < ncand ==> 0 <= #[trigger] tallies@[c] <= (v as int) * (nranks as int),
                forall|i: int, j: int|
                    0 <= i < ncand && 0 <= j < ncand ==> #[trigger] pm@[i]@[j] == star_pref_cnt(
                        sim.scores@,
                        v as int,
                        i,
                        j,
                        nranks as int,
                        strat,
                        stretch as int,
                        pw,
                        pru,
                    ),
                forall|i: int, j: int|
                    0 <= i < ncand && 0 <= j < ncand ==> 0 <= #[trigger] pm@[i]@[j] <= v as int,
            decreases ncit - v,
        {
            let ghost row = sim.scores@[v as int]@;
            if strategic {
                let break2 = sim.scores[v][pw] + sim.scores[v][pru];
                fill_range_ballot_strat(&sim.scores[v], nranks, &mut ballot, break2, stretch);
            } else {
                fill_range_ballot(&sim.scores[v], nranks, &mut ballot);
            }
            proof {
                assert forall|c: int| 0 <= c < ncand implies #[trigger] ballot@[c] == star_grade(
                    row,
                    c,
                    nranks as int,
                    strat,
                    stretch as int,
                    pw,
                    pru,
                ) by {}
            }
            super::rangevoting::add_ballot(
                &mut tallies,
                &ballot,
                Ghost(v as int),
                Ghost(nranks as int),
            );
            let mut new_pm: Vec<Vec<i64>> = Vec::new();
            let mut i: usize = 0;
            while i < ncand
                invariant
                    sim.wf(),
                    sim.ncand == ncand,
                    sim.ncit == ncit,
                    2 <= nranks <= MAX_RANKS,
                    v < ncit,
                    i <= ncand,
                    ballot@.len() == ncand,
                    pm@.len() == ncand,
                    forall|i2: int| 0 <= i2 < ncand ==> (#[trigger] pm@[i2])@.len() == ncand,
                    forall|i2: int, j: int|
                        0 <= i2 < ncand && 0 <= j < ncand ==> #[trigger] pm@[i2]@[j]
                            == star_pref_cnt(
                            sim.scores@,
                            v as int,
                            i2,
                            j,
                            nranks as int,
                            strat,
                            stretch as int,
                            pw,
                            pru,
                        ),
                    forall|i2: int, j: int|
                        0 <= i2 < ncand && 0 <= j < ncand ==> 0 <= #[trigger] pm@[i2]@[j]
                            <= v as int,
                    row == sim.scores@[v as int]@,
                    forall|c: int|
                        0 <= c < ncand ==> #[trigger] ballot@[c] == star_grade(
                            row,
                            c,
                            nranks as int,
                            strat,
                            stretch as int,
                            pw,
                            pru,
                        ),
                    new_pm@.len() == i,
                    forall|i2: int| 0 <= i2 < i ==> (#[trigger] new_pm@[i2])@.len() == ncand,
                    forall|i2: int, j: int|
                        0 <= i2 < i && 0 <= j < ncand ==> #[trigger] new_pm@[i2]@[j]
                            == star_pref_cnt(
                            sim.scores@,
                            v as int + 1,
                            i2,
                            j,
                            nranks as int,
                            strat,
                            stretch as int,
                            pw,
                            pru,
                        ),
                    forall|i2: int, j: int|
                        0 <= i2 < i && 0 <= j < ncand ==> 0 <= #[trigger] new_pm@[i2]@[j] <= v
                            as int + 1,
                decreases ncand - i,
            {
                let mut new_row: Vec<i64> = Vec::new();
                let mut j: usize = 0;
                while j < ncand
                    invariant
                        sim.wf(),
                        sim.ncand == ncand,
                        sim.ncit == ncit,
                        v < ncit,
                        i < ncand,
                        j <= ncand,
                        ballot@.len() == ncand,
                        pm@.len() == ncand,
                        forall|i2: int| 0 <= i2 < ncand ==> (#[trigger] pm@[i2])@.len() == ncand,
                        forall|i2: int, j2: int|
                            0 <= i2 < ncand && 0 <= j2 < ncand ==> #[trigger] pm@[i2]@[j2]
                                == star_pref_cnt(
                                sim.scores@,
                                v as int,
                                i2,
                                j2,
                                nranks as int,
                                strat,
                                stretch as int,
                                pw,
                                pru,
                            ),
                        forall|i2: int, j2: int|
                            0 <= i2 < ncand && 0 <= j2 < ncand ==> 0 <= #[trigger] pm@[i2]@[j2]
                                <= v as int,
                        row == sim.scores@[v as int]@,
                        forall|c: int|
                            0 <= c < ncand ==> #[trigger] ballot@[c] == star_grade(
                                row,
                                c,
                                nranks as int,
                                strat,
                                stretch as int,
                                pw,
                                pru,
                            ),
                        new_row@.len() == j,
                        forall|j2: int|
                            0 <= j2 < j ==> #[trigger] new_row@[j2] == star_pref_cnt(
                                sim.scores@,
                                v as int + 1,
                                i as int,
                                j2,
                                nranks as int,
                                strat,
                                stretch as int,
                                pw,
                                pru,
                            ),
                        forall|j2: int|
                            0 <= j2 < j ==> 0 <= #[trigger] new_row@[j2] <= v as int + 1,
                    decreases ncand - j,
                {
                    let bump: i64 = if ballot[i] > ballot[j] {
                        1
                    } else {
                        0
                    };
                    new_row.push(pm[i][j] + bump);
                    j += 1;
                }
                new_pm.push(new_row);
                i += 1;
            }
            pm = new_pm;
            v += 1;
        }
        self.tallies = tallies;
        self.preference_matrix = pm;
        let runoff = tally_votes(&self.tallies);
        let ca = runoff.winner.cand;
        let cb = runoff.runnerup.cand;
        let r = if self.preference_matrix[ca][cb] >= self.preference_matrix[cb][ca] {
            WinnerAndRunnerup {
                winner: super::results::ElectResult {
                    cand: ca,
                    score: self.preference_matrix[ca][cb],
                },
                runnerup: super::results::ElectResult {
                    cand: cb,
                    score: self.preference_matrix[cb][ca],
                },
            }
        } else {
            WinnerAndRunnerup {
                winner: super::results::ElectResult {
                    cand: cb,
                    score: self.preference_matrix[cb][ca],
                },
                runnerup: super::results::ElectResult {
                    cand: ca,
                    score: self.preference_matrix[ca][cb],
                },
            }
        };
        proof {
            assert(star_pick(self.tallies@, self.preference_matrix@, ca, cb, r));
        }
        r
    }

    pub fn name(&self) -> (s: String)
        ensures
            2 <= self.params.nranks <= MAX_RANKS ==> s@ == "STAR 1-"@ + crate::tables::dec_rep(
                self.params.nranks as nat,
            ) + ", "@ + super::results::strategy_word(self.params.strat),
    {
        let mut s = String::from_str("STAR 1-");
        if 0 <= self.params.nranks && self.params.nranks <= MAX_RANKS {
            let num = usize_to_string(self.params.nranks as usize);
            s.append(num.as_str());
        }
        s.append(", ");
        match self.params.strat {
            Strategy::Honest => s.append("Honest"),
            Strategy::Strategic => s.append("Strategic"),
        }
        s
    }

    pub fn colname(&self) -> (s: String)
        ensures
            2 <= self.params.nranks <= MAX_RANKS ==> s@ == "star_"@ + crate::tables::dec_rep(
                self.params.nranks as nat,
            ) + "_"@ + super::results::strategy_letter(self.params.strat),
    {
        let mut s = String::from_str("star_");
        if 0 <= self.params.nranks && self.params.nranks <= MAX_RANKS {
            let num = usize_to_string(self.params.nranks as usize);
            s.append(num.as_str());
        }
        s.append("_");
        match self.params.strat {
            Strategy::Honest => s.append("h"),
            Strategy::Strategic => s.append("s"),
        }
        s
    }

    pub fn strat(&self) -> (s: Strategy)
        ensures
            s == self.params.strat,
    {
        self.params.strat
    }
}

} // verus!
