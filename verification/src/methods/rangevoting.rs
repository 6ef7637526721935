//! Range (score) voting; `nranks == 2` is Approval.
//!
//! Each voter converts their utilities to integer grades in
//! `0..nranks-1`, linearly mapping their personal minimum to the bottom
//! grade and maximum to the top grade, with half-width bins at both
//! ends. Strategic voters first stretch their ballot around the
//! midpoint between the two front-runners, pushing grades toward the
//! extremes. Grades are summed and the highest sum wins.

use super::results::{strategy_letter, strategy_word, Strategy, WinnerAndRunnerup};
use super::tallies::{tallied, tally_votes, Tallies};
use crate::sim::Sim;
use crate::tables::filled;
use crate::{MAX_RANKS, MAX_SCORE, MAX_STRETCH};
use vstd::arithmetic::div_mod::{lemma_div_pos_is_pos, lemma_multiply_divide_lt};
use vstd::prelude::*;
use vstd::string::StringExecFns;

verus! {

/// Minimum of the first `n` entries.
pub open spec fn seq_min(s: Seq<i64>, n: int) -> int
    decreases n,
{
    if n <= 1 {
        s[0] as int
    } else {
        let rest = seq_min(s, n - 1);
        if s[n - 1] < rest {
            s[n - 1] as int
        } else {
            rest
        }
    }
}

/// Maximum of the first `n` entries.
pub open spec fn seq_max(s: Seq<i64>, n: int) -> int
    decreases n,
{
    if n <= 1 {
        s[0] as int
    } else {
        let rest = seq_max(s, n - 1);
        if s[n - 1] > rest {
            s[n - 1] as int
        } else {
            rest
        }
    }
}

pub proof fn lemma_min_max_bounds(s: Seq<i64>, n: int, lo: int, hi: int)
    requires
        1 <= n <= s.len(),
        forall|k: int| 0 <= k < n ==> lo <= #[trigger] s[k] <= hi,
    ensures
        lo <= seq_min(s, n),
        seq_max(s, n) <= hi,
    decreases n,
{
    if n > 1 {
        lemma_min_max_bounds(s, n - 1, lo, hi);
    }
}

pub proof fn lemma_min_max_range(s: Seq<i64>, n: int, k: int)
    requires
        0 <= k < n,
    ensures
        seq_min(s, n) <= s[k] <= seq_max(s, n),
        seq_min(s, n) <= seq_max(s, n),
    decreases n,
{
    if n > 1 {
        if k < n - 1 {
            lemma_min_max_range(s, n - 1, k);
        } else {
            lemma_min_max_range(s, n - 1, 0);
        }
    }
}

/// The honest grade of candidate `c` on the ballot of a voter whose
/// utility row is `row`: `floor((row[c] - min) / bin + 1/2)` with
/// `bin = (max - min) / (nranks - 1)`, written over integers. A voter
/// who scores all candidates alike grades everyone zero.
pub open spec fn range_grade(row: Seq<i64>, c: int, nranks: int) -> int {
    let mn = seq_min(row, row.len() as int);
    let mx = seq_max(row, row.len() as int);
    if mx == mn {
        0
    } else {
        (2 * (row[c] - mn) * (nranks - 1) + (mx - mn)) / (2 * (mx - mn))
    }
}

/// The strategic grade: utilities at or above the break (stated as
/// `break2`, twice the midpoint of the two front-runners' utilities)
/// are pulled up to the top of a ballot stretched by `stretch`, then
/// binned as in [`range_grade`].
pub open spec fn range_grade_strat(
    row: Seq<i64>,
    c: int,
    nranks: int,
    break2: int,
    stretch: int,
) -> int {
    let mn = seq_min(row, row.len() as int);
    let mx = seq_max(row, row.len() as int);
    let range = mx - mn;
    if range == 0 {
        0
    } else {
        let modified = if 2 * row[c] < break2 {
            row[c] - mn
        } else {
            range * stretch - (mx - row[c])
        };
        (2 * modified * (nranks - 1) + range * stretch) / (2 * range * stretch)
    }
}

/// Sum of honest grades for candidate `c` over the first `n` voters.
pub open spec fn range_cnt(scores: Seq<Vec<i64>>, n: int, c: int, nranks: int) -> int
    decreases n,
{
    if n <= 0 {
        0
    } else {
        range_cnt(scores, n - 1, c, nranks) + range_grade(scores[n - 1]@, c, nranks)
    }
}

/// Sum of strategic grades for candidate `c` over the first `n`
/// voters, each voter breaking at the midpoint of their own utilities
/// for the pre-election winner `pw` and runner-up `pru`.
pub open spec fn range_strat_cnt(
    scores: Seq<Vec<i64>>,
    n: int,
    c: int,
    nranks: int,
    stretch: int,
    pw: usize,
    pru: usize,
) -> int
    decreases n,
{
    if n <= 0 {
        0
    } else {
        range_strat_cnt(scores, n - 1, c, nranks, stretch, pw, pru) + range_grade_strat(
            scores[n - 1]@,
            c,
            nranks,
            scores[n - 1]@[pw as int] + scores[n - 1]@[pru as int],
            stretch,
        )
    }
}

/// Every honest grade lies in `0..nranks`.
pub proof fn lemma_grade_bounds(row: Seq<i64>, c: int, nranks: int)
    requires
        0 <= c < row.len(),
        2 <= nranks,
    ensures
        0 <= range_grade(row, c, nranks) < nranks,
{
    let mn = seq_min(row, row.len() as int);
    let mx = seq_max(row, row.len() as int);
    lemma_min_max_range(row, row.len() as int, c);
    if mx != mn {
        let num = 2 * (row[c] - mn) * (nranks - 1) + (mx - mn);
        let den = 2 * (mx - mn);
        assert(0 <= 2 * (row[c] - mn) * (nranks - 1)) by (nonlinear_arith)
            requires
                row[c] >= mn,
                nranks >= 2,
        ;
        assert(num < den * nranks) by (nonlinear_arith)
            requires
                num == 2 * (row[c] - mn) * (nranks - 1) + (mx - mn),
                den == 2 * (mx - mn),
                mn <= row[c] <= mx,
                mn < mx,
                2 <= nranks,
        ;
        lemma_div_pos_is_pos(num, den);
        lemma_multiply_divide_lt(num, den, nranks);
    }
}

/// Every strategic grade lies in `0..nranks`.
pub proof fn lemma_grade_strat_bounds(row: Seq<i64>, c: int, nranks: int, break2: int, stretch: int)
    requires
        0 <= c < row.len(),
        2 <= nranks,
        1 <= stretch,
    ensures
        0 <= range_grade_strat(row, c, nranks, break2, stretch) < nranks,
{
    let mn = seq_min(row, row.len() as int);
    let mx = seq_max(row, row.len() as int);
    lemma_min_max_range(row, row.len() as int, c);
    let range = mx - mn;
    if range != 0 {
        let modified = if 2 * row[c] < break2 {
            row[c] - mn
        } else {
            range * stretch - (mx - row[c])
        };
        let num = 2 * modified * (nranks - 1) + range * stretch;
        let den = 2 * range * stretch;
        assert(0 <= modified <= range * stretch) by (nonlinear_arith)
            requires
                modified == (if 2 * row[c] < break2 {
                    row[c] - mn
                } else {
                    range * stretch - (mx - row[c])
                }),
                mn <= row[c] <= mx,
                range == mx - mn,
                0 < range,
                1 <= stretch,
        ;
        assert(0 <= num && 0 < den && num < den * nranks) by (nonlinear_arith)
            requires
                num == 2 * modified * (nranks - 1) + range * stretch,
                den == 2 * range * stretch,
                0 <= modified <= range * stretch,
                0 < range,
                1 <= stretch,
                2 <= nranks,
        ;
        lemma_div_pos_is_pos(num, den);
        lemma_multiply_divide_lt(num, den, nranks);
    }
}

#[derive(Debug, Clone, Copy, PartialEq, Eq, Structural)]
pub struct RangeVoting {
    pub strat: Strategy,
    /// Number of grades on the ballot; 2 makes this Approval voting.
    pub nranks: i64,
    /// How far a strategic ballot is stretched before binning.
    pub strategic_stretch_factor: i64,
}

pub struct RangeVotingSim {
    pub params: RangeVoting,
    pub tallies: Tallies,
}

impl RangeVoting {
    pub fn new_sim(&self, sim: &Sim) -> (m: RangeVotingSim)
        requires
            sim.wf(),
        ensures
            m.params == *self,
            m.tallies@.len() == sim.ncand,
    {
        RangeVotingSim { params: *self, tallies: filled(sim.ncand, 0i64) }
    }
}

impl RangeVotingSim {
    /// Run the election: sum each voter's ballot grades per candidate
    /// and pick the two highest sums.
    pub fn elect(&mut self, sim: &Sim, honest_rslt: Option<WinnerAndRunnerup>) -> (r:
        WinnerAndRunnerup)
        requires
            sim.wf(),
            sim.ncand >= 2,
            2 <= old(self).params.nranks <= MAX_RANKS,
            1 <= old(self).params.strategic_stretch_factor <= MAX_STRETCH,
            old(self).params.strat == Strategy::Strategic ==> (honest_rslt matches Some(pre)
                && pre.winner.cand < sim.ncand && pre.runnerup.cand < sim.ncand),
        ensures
            final(self).params == old(self).params,
            final(self).tallies@.len() == sim.ncand,
            tallied(final(self).tallies@, r),
            old(self).params.strat == Strategy::Honest ==> forall|c: int|
                0 <= c < sim.ncand ==> #[trigger] final(self).tallies@[c] == range_cnt(
                    sim.scores@,
                    sim.ncit as int,
                    c,
                    old(self).params.nranks as int,
                ),
            old(self).params.strat == Strategy::Strategic ==> forall|c: int|
                0 <= c < sim.ncand ==> #[trigger] final(self).tallies@[c] == range_strat_cnt(
                    sim.scores@,
                    sim.ncit as int,
                    c,
                    old(self).params.nranks as int,
                    old(self).params.strategic_stretch_factor as int,
                    honest_rslt->0.winner.cand,
                    honest_rslt->0.runnerup.cand,
                ),
    {
        let ncand = sim.ncand;
        let ncit = sim.ncit;
        let nranks = self.params.nranks;
        let stretch = self.params.strategic_stretch_factor;
        let mut tallies: Tallies = filled(ncand, 0i64);
        let mut ballot: Tallies = filled(ncand, 0i64);
        match self.params.strat {
            Strategy::Honest => {
                let mut v: usize = 0;
                while v < ncit
                    invariant
                        sim.wf(),
                        sim.ncand == ncand,
                        sim.ncit == ncit,
                        2 <= nranks <= MAX_RANKS,
                        v <= ncit,
                        tallies@.len() == ncand,
                        ballot@.len() == ncand,
                        forall|c: int|
                            0 <= c < ncand ==> #[trigger] tallies@[c] == range_cnt(
                                sim.scores@,
                                v as int,
                                c,
                                nranks as int,
                            ),
                        forall|c: int|
                            0 <= c < ncand ==> 0 <= #[trigger] tallies@[c] <= (v as int) * (
                            nranks as int),
                    decreases ncit - v,
                {
                    fill_range_ballot(&sim.scores[v], nranks, &mut ballot);
                    add_ballot(&mut tallies, &ballot, Ghost(v as int), Ghost(nranks as int));
                    let ghost row = sim.scores@[v as int]@;
                    proof {
                        assert forall|c: int| 0 <= c < ncand implies #[trigger] tallies@[c]
                            == range_cnt(sim.scores@, v as int + 1, c, nranks as int) by {
                            assert(ballot@[c] == range_grade(row, c, nranks as int));
                        }
                    }
                    v += 1;
                }
                self.tallies = tallies;
            },
            Strategy::Strategic => {
                let pre = honest_rslt.unwrap();
                let pw = pre.winner.cand;
                let pru = pre.runnerup.cand;
                let mut v: usize = 0;
                while v < ncit
                    invariant
                        sim.wf(),
                        sim.ncand == ncand,
                        sim.ncit == ncit,
                        2 <= nranks <= MAX_RANKS,
                        1 <= stretch <= MAX_STRETCH,
                        pw < ncand,
                        pru < ncand,
                        v <= ncit,
                        tallies@.len() == ncand,
                        ballot@.len() == ncand,
                        forall|c: int|
                            0 <= c < ncand ==> #[trigger] tallies@[c] == range_strat_cnt(
                                sim.scores@,
                                v as int,
                                c,
                                nranks as int,
                                stretch as int,
                                pw,
                                pru,
                            ),
                        forall|c: int|
                            0 <= c < ncand ==> 0 <= #[trigger] tallies@[c] <= (v as int) * (
                            nranks as int),
                    decreases ncit - v,
                {
                    let break2 = sim.scores[v][pw] + sim.scores[v][pru];
                    fill_range_ballot_strat(&sim.scores[v], nranks, &mut ballot, break2, stretch);
                    add_ballot(&mut tallies, &ballot, Ghost(v as int), Ghost(nranks as int));
                    let ghost row = sim.scores@[v as int]@;
                    proof {
                        assert forall|c: int| 0 <= c < ncand implies #[trigger] tallies@[c]
                            == range_strat_cnt(
                            sim.scores@,
                            v as int + 1,
                            c,
                            nranks as int,
                            stretch as int,
                            pw,
                            pru,
                        ) by {
                            assert(ballot@[c] == range_grade_strat(
                                row,
                                c,
                                nranks as int,
                                break2 as int,
                                stretch as int,
                            ));
                        }
                    }
                    v += 1;
                }
                self.tallies = tallies;
            },
        }
        tally_votes(&self.tallies)
    }

    pub fn name(&self) -> (s: String)
        ensures
            self.params.nranks == 2 ==> s@ == "Approval, "@ + strategy_word(self.params.strat),
            2 < self.params.nranks <= MAX_RANKS ==> s@ == "Range 1-"@ + crate::tables::dec_rep(
                self.params.nranks as nat,
            ) + ", "@ + strategy_word(self.params.strat),
    {
        let mut s = if self.params.nranks == 2 {
            String::from_str("Approval, ")
        } else {
            let mut t = String::from_str("Range 1-");
            if 0 <= self.params.nranks && self.params.nranks <= MAX_RANKS {
                let num = crate::tables::usize_to_string(self.params.nranks as usize);
                t.append(num.as_str());
            }
            t.append(", ");
            t
        };
        match self.params.strat {
            Strategy::Honest => s.append("Honest"),
            Strategy::Strategic => s.append("Strategic"),
        }
        s
    }

    pub fn colname(&self) -> (s: String)
        ensures
            self.params.nranks == 2 ==> s@ == "aprv_"@ + strategy_letter(self.params.strat),
            2 < self.params.nranks <= MAX_RANKS ==> s@ == "range_"@ + crate::tables::dec_rep(
                self.params.nranks as nat,
            ) + "_"@ + strategy_letter(self.params.strat),
    {
        let mut s = if self.params.nranks == 2 {
            String::from_str("aprv_")
        } else {
            let mut t = String::from_str("range_");
            if 0 <= self.params.nranks && self.params.nranks <= MAX_RANKS {
                let num = crate::tables::usize_to_string(self.params.nranks as usize);
                t.append(num.as_str());
            }
            t.append("_");
            t
        };
        match self.params.strat {
            Strategy::Honest => s.append("h"),
            Strategy::Strategic => s.append("s"),
        }
        s
    }

    pub fn strat(&self) -> (s: Strategy)
        ensures
            s == self.params.strat,
    {
        self.params.strat
    }
}

/// Add one filled ballot into the running tallies.
pub(crate) fn add_ballot(tallies: &mut Tallies, ballot: &Tallies, Ghost(v): Ghost<int>, Ghost(nranks): Ghost<int>)
    requires
        old(tallies)@.len() == ballot@.len(),
        2 <= nranks <= MAX_RANKS,
        0 <= v < crate::MAX_VOTERS,
        forall|c: int| 0 <= c < ballot@.len() ==> 0 <= #[trigger] ballot@[c] < nranks,
        forall|c: int| 0 <= c < old(tallies)@.len() ==> 0 <= #[trigger] old(tallies)@[c] <= v * nranks,
    ensures
        final(tallies)@.len() == old(tallies)@.len(),
        forall|c: int|
            0 <= c < final(tallies)@.len() ==> #[trigger] final(tallies)@[c] == old(tallies)@[c]
                + ballot@[c],
        forall|c: int|
            0 <= c < final(tallies)@.len() ==> 0 <= #[trigger] final(tallies)@[c] <= (v + 1)
                * nranks,
{
    let n = tallies.len();
    let mut c: usize = 0;
    while c < n
        invariant
            tallies@.len() == n,
            ballot@.len() == n,
            c <= n,
            2 <= nranks <= MAX_RANKS,
            0 <= v < crate::MAX_VOTERS,
            forall|d: int| 0 <= d < n ==> 0 <= #[trigger] ballot@[d] < nranks,
            forall|d: int|
                c <= d < n ==> #[trigger] tallies@[d] == old(tallies)@[d] && 0 <= tallies@[d] <= v
                    * nranks,
            forall|d: int|
                0 <= d < c ==> #[trigger] tallies@[d] == old(tallies)@[d] + ballot@[d] && 0
                    <= tallies@[d] <= (v + 1) * nranks,
        decreases n - c,
    {
        proof {
            assert(v * nranks + nranks == (v + 1) * nranks) by (nonlinear_arith);
            assert((v + 1) * nranks <= (crate::MAX_VOTERS as int) * (MAX_RANKS as int)) by (
            nonlinear_arith)
                requires
                    0 <= v < crate::MAX_VOTERS,
                    2 <= nranks <= MAX_RANKS,
            ;
        }
        let t = tallies[c];
        tallies.set(c, t + ballot[c]);
        c += 1;
    }
}

/// Fill an honest range ballot: grade every candidate in
/// `0..nranks - 1` by linear binning of this voter's utilities, with
/// half-width bins at the extremes.
pub fn fill_range_ballot(scores_row: &Vec<i64>, nranks: i64, ballot: &mut Vec<i64>)
    requires
        1 <= scores_row@.len(),
        old(ballot)@.len() == scores_row@.len(),
        forall|c: int|
            0 <= c < scores_row@.len() ==> -MAX_SCORE <= #[trigger] scores_row@[c] <= MAX_SCORE,
        2 <= nranks <= MAX_RANKS,
    ensures
        final(ballot)@.len() == scores_row@.len(),
        forall|c: int|
            0 <= c < scores_row@.len() ==> #[trigger] final(ballot)@[c] == range_grade(
                scores_row@,
                c,
                nranks as int,
            ),
        forall|c: int|
            0 <= c < scores_row@.len() ==> 0 <= #[trigger] final(ballot)@[c] < nranks,
{
    let n = scores_row.len();
    let (mn, mx) = row_min_max(scores_row);
    proof {
        lemma_min_max_bounds(scores_row@, n as int, -MAX_SCORE as int, MAX_SCORE as int);
        lemma_min_max_range(scores_row@, n as int, 0);
    }
    let mut c: usize = 0;
    while c < n
        invariant
            scores_row@.len() == n,
            ballot@.len() == n,
            c <= n,
            1 <= n,
            2 <= nranks <= MAX_RANKS,
            forall|d: int| 0 <= d < n ==> -MAX_SCORE <= #[trigger] scores_row@[d] <= MAX_SCORE,
            mn == seq_min(scores_row@, n as int),
            mx == seq_max(scores_row@, n as int),
            -MAX_SCORE <= mn <= mx <= MAX_SCORE,
            forall|d: int|
                0 <= d < c ==> #[trigger] ballot@[d] == range_grade(scores_row@, d, nranks as int),
            forall|d: int| 0 <= d < c ==> 0 <= #[trigger] ballot@[d] < nranks,
        decreases n - c,
    {
        proof {
            lemma_min_max_range(scores_row@, n as int, c as int);
            lemma_grade_bounds(scores_row@, c as int, nranks as int);
        }
        if mx == mn {
            ballot.set(c, 0);
        } else {
            let scaled: i64 = 2 * (scores_row[c] - mn);
            proof {
                assert(0 <= (scaled as int) * ((nranks - 1) as int) <= (4 * MAX_SCORE as int) * (
                MAX_RANKS as int)) by (nonlinear_arith)
                    requires
                        0 <= scaled as int <= 4 * MAX_SCORE as int,
                        1 <= (nranks - 1) as int <= MAX_RANKS as int,
                ;
            }
            let prod: i64 = scaled * (nranks - 1);
            let num: i64 = prod + (mx - mn);
            let den: i64 = 2 * (mx - mn);
            ballot.set(c, num / den);
        }
        c += 1;
    }
}

/// Fill a strategic range ballot. `score_break2` is twice the break
/// point (the sum of this voter's utilities for the two front-runners);
/// utilities at or above the break move to the top of a ballot
/// stretched by `stretch_factor` before binning.
pub fn fill_range_ballot_strat(
    scores_row: &Vec<i64>,
    nranks: i64,
    ballot: &mut Vec<i64>,
    score_break2: i64,
    stretch_factor: i64,
)
    requires
        1 <= scores_row@.len(),
        old(ballot)@.len() == scores_row@.len(),
        forall|c: int|
            0 <= c < scores_row@.len() ==> -MAX_SCORE <= #[trigger] scores_row@[c] <= MAX_SCORE,
        2 <= nranks <= MAX_RANKS,
        1 <= stretch_factor <= MAX_STRETCH,
        -2 * MAX_SCORE <= score_break2 <= 2 * MAX_SCORE,
    ensures
        final(ballot)@.len() == scores_row@.len(),
        forall|c: int|
            0 <= c < scores_row@.len() ==> #[trigger] final(ballot)@[c] == range_grade_strat(
                scores_row@,
                c,
                nranks as int,
                score_break2 as int,
                stretch_factor as int,
            ),
        forall|c: int|
            0 <= c < scores_row@.len() ==> 0 <= #[trigger] final(ballot)@[c] < nranks,
{
    let n = scores_row.len();
    let (mn, mx) = row_min_max(scores_row);
    proof {
        lemma_min_max_bounds(scores_row@, n as int, -MAX_SCORE as int, MAX_SCORE as int);
        lemma_min_max_range(scores_row@, n as int, 0);
    }
    let range = mx - mn;
    let mut c: usize = 0;
    while c < n
        invariant
            scores_row@.len() == n,
            ballot@.len() == n,
            c <= n,
            1 <= n,
            2 <= nranks <= MAX_RANKS,
            1 <= stretch_factor <= MAX_STRETCH,
            -2 * MAX_SCORE <= score_break2 <= 2 * MAX_SCORE,
            forall|d: int| 0 <= d < n ==> -MAX_SCORE <= #[trigger] scores_row@[d] <= MAX_SCORE,
            mn == seq_min(scores_row@, n as int),
            mx == seq_max(scores_row@, n as int),
            -MAX_SCORE <= mn <= mx <= MAX_SCORE,
            range == mx - mn,
            forall|d: int|
                0 <= d < c ==> #[trigger] ballot@[d] == range_grade_strat(
                    scores_row@,
                    d,
                    nranks as int,
                    score_break2 as int,
                    stretch_factor as int,
                ),
            forall|d: int| 0 <= d < c ==> 0 <= #[trigger] ballot@[d] < nranks,
        decreases n - c,
    {
        proof {
            lemma_min_max_range(scores_row@, n as int, c as int);
            lemma_grade_strat_bounds(
                scores_row@,
                c as int,
                nranks as int,
                score_break2 as int,
                stretch_factor as int,
            );
        }
        if range == 0 {
            ballot.set(c, 0);
        } else {
            let s = scores_row[c];
            proof {
                assert(1 <= (range as int) * (stretch_factor as int) <= (2 * MAX_SCORE as int) * (
                MAX_STRETCH as int)) by (nonlinear_arith)
                    requires
                        0 < range <= 2 * MAX_SCORE as int,
                        1 <= stretch_factor <= MAX_STRETCH,
                ;
            }
            let stretched: i64 = range * stretch_factor;
            let modified: i64 = if 2 * s < score_break2 {
                s - mn
            } else {
                stretched - (mx - s)
            };
            proof {
                assert(0 <= modified as int <= stretched as int) by (nonlinear_arith)
                    requires
                        modified as int == (if 2 * (scores_row@[c as int] as int)
                            < score_break2 as int {
                            scores_row@[c as int] - mn
                        } else {
                            stretched - (mx - scores_row@[c as int])
                        }),
                        stretched as int == (range as int) * (stretch_factor as int),
                        range as int == mx - mn,
                        0 < range as int,
                        1 <= stretch_factor,
                        mn <= scores_row@[c as int] <= mx,
                ;
            }
            let scaled: i64 = 2 * modified;
            proof {
                assert(0 <= (scaled as int) * ((nranks - 1) as int) <= 0x4000_0000_0000_0000) by (
                nonlinear_arith)
                    requires
                        0 <= scaled as int <= 2 * ((2 * MAX_SCORE as int) * (MAX_STRETCH as int)),
                        1 <= (nranks - 1) as int <= MAX_RANKS as int,
                ;
            }
            let prod: i64 = scaled * (nranks - 1);
            let num: i64 = prod + stretched;
            let den: i64 = 2 * stretched;
            proof {
                assert(2 * ((range as int) * (stretch_factor as int)) == (2 * (range as int)) * (
                stretch_factor as int)) by (nonlinear_arith);
                assert((2 * (modified as int)) * ((nranks - 1) as int) == 2 * (modified as int) * ((
                nranks - 1) as int)) by (nonlinear_arith);
            }
            ballot.set(c, num / den);
        }
        c += 1;
    }
}

/// Smallest and largest utility on this voter's row.
fn row_min_max(scores_row: &Vec<i64>) -> (r: (i64, i64))
    requires
        1 <= scores_row@.len(),
    ensures
        r.0 == seq_min(scores_row@, scores_row@.len() as int),
        r.1 == seq_max(scores_row@, scores_row@.len() as int),
{
    let n = scores_row.len();
    let mut mn = scores_row[0];
    let mut mx = scores_row[0];
    let mut i: usize = 1;
    while i < n
        invariant
            scores_row@.len() == n,
            1 <= i <= n,
            mn == seq_min(scores_row@, i as int),
            mx == seq_max(scores_row@, i as int),
        decreases n - i,
    {
        if scores_row[i] < mn {
            mn = scores_row[i];
        }
        if scores_row[i] > mx {
            mx = scores_row[i];
        }
        i += 1;
    }
    (mn, mx)
}

} // verus!
