//! The per-election workspace.
//!
//! A [`Sim`] owns the voter-by-candidate score matrix and every table
//! derived from it: the per-voter rank table, the pairwise-margin matrix,
//! the total utilities with their regret ordering, and the Smith set.

use crate::methods::condorcet_util::mark_smith_candidates;
use crate::methods::results::{ElectResult, WinnerAndRunnerup};
use crate::sorting::{count_true, sorted_ids_desc, sorted_perm};
use crate::tables::{filled, filled_matrix, identity_ids};
use crate::{MAX_CANDIDATES, MAX_SCORE, MAX_VOTERS};
use vstd::prelude::*;

verus! {

/// Sum of column `c` over the first `n` rows of the score matrix.
pub open spec fn col_sum(s: Seq<Vec<i64>>, n: int, c: int) -> int
    decreases n,
{
    if n <= 0 {
        0
    } else {
        col_sum(s, n - 1, c) + s[n - 1]@[c]
    }
}

/// How many of the first `n` voters score candidate `a` strictly above
/// candidate `b`.
pub open spec fn pref_cnt(s: Seq<Vec<i64>>, n: int, a: int, b: int) -> int
    decreases n,
{
    if n <= 0 {
        0
    } else {
        pref_cnt(s, n - 1, a, b) + if s[n - 1]@[a] > s[n - 1]@[b] {
            1int
        } else {
            0int
        }
    }
}

pub proof fn lemma_pref_cnt_bounds(s: Seq<Vec<i64>>, n: int, a: int, b: int)
    requires
        0 <= n,
    ensures
        0 <= pref_cnt(s, n, a, b) <= n,
    decreases n,
{
    if n > 0 {
        lemma_pref_cnt_bounds(s, n - 1, a, b);
    }
}

pub proof fn lemma_col_sum_bounds(s: Seq<Vec<i64>>, n: int, c: int, bound: int)
    requires
        0 <= n,
        0 <= bound,
        forall|v: int| 0 <= v < n ==> -bound <= #[trigger] s[v]@[c] <= bound,
    ensures
        -n * bound <= col_sum(s, n, c) <= n * bound,
    decreases n,
{
    if n > 0 {
        lemma_col_sum_bounds(s, n - 1, c, bound);
        assert(-(n - 1) * bound - bound == -n * bound) by (nonlinear_arith);
        assert((n - 1) * bound + bound == n * bound) by (nonlinear_arith);
    }
}

pub struct Sim {
    pub ncand: usize,
    pub ncit: usize,
    /// `scores[v][c]` is voter `v`'s utility for candidate `c`.
    pub scores: Vec<Vec<i64>>,
    /// Row `v` lists the candidates in voter `v`'s order of preference.
    pub ranks: Vec<Vec<usize>>,
    /// Signed pairwise margins: entry `(i, j)` is the number of voters
    /// preferring `i` to `j` minus the number preferring `j` to `i`.
    pub i_beats_j_by: Vec<Vec<i64>>,
    /// Column sums of `scores`: the total utility of each candidate.
    pub utilities: Vec<i64>,
    /// Utility shortfall of each candidate against the best total
    /// utility. The reported (normalized) regret divides this by the
    /// shared gap between the best and the mean total utility, so order
    /// and zeroes are the same.
    pub regrets: Vec<i64>,
    /// Candidates ordered from smallest to largest regret.
    pub cand_by_regret: Vec<usize>,
    /// Inverse of `cand_by_regret`: the regret rank of each candidate.
    pub regret_rank: Vec<usize>,
    /// Membership in the Smith set.
    pub in_smith_set: Vec<bool>,
}

impl Sim {
    /// Shapes and bounds every operation preserves.
    pub open spec fn wf(self) -> bool {
        &&& 1 <= self.ncand <= MAX_CANDIDATES
        &&& 1 <= self.ncit <= MAX_VOTERS
        &&& self.scores@.len() == self.ncit
        &&& forall|v: int| 0 <= v < self.ncit ==> (#[trigger] self.scores@[v])@.len() == self.ncand
        &&& forall|v: int, c: int|
            0 <= v < self.ncit && 0 <= c < self.ncand ==> -MAX_SCORE
                <= #[trigger] self.scores@[v]@[c] <= MAX_SCORE
        &&& self.ranks@.len() == self.ncit
        &&& forall|v: int| 0 <= v < self.ncit ==> (#[trigger] self.ranks@[v])@.len() == self.ncand
        &&& self.i_beats_j_by@.len() == self.ncand
        &&& forall|i: int|
            0 <= i < self.ncand ==> (#[trigger] self.i_beats_j_by@[i])@.len() == self.ncand
        &&& self.utilities@.len() == self.ncand
        &&& self.regrets@.len() == self.ncand
        &&& self.cand_by_regret@.len() == self.ncand
        &&& self.regret_rank@.len() == self.ncand
        &&& self.in_smith_set@.len() == self.ncand
    }

    /// The rank table matches the score matrix: every row of `ranks`
    /// lists all candidates in descending order of that voter's scores,
    /// ties broken toward the smaller candidate index.
    pub open spec fn ranks_ok(self) -> bool {
        forall|v: int|
            0 <= v < self.ncit ==> sorted_perm(self.scores@[v]@, (#[trigger] self.ranks@[v])@)
    }

    /// The margin matrix matches the score matrix.
    pub open spec fn margins_ok(self) -> bool {
        forall|i: int, j: int|
            0 <= i < self.ncand && 0 <= j < self.ncand ==> #[trigger] self.i_beats_j_by@[i]@[j]
                == pref_cnt(self.scores@, self.ncit as int, i, j) - pref_cnt(
                self.scores@,
                self.ncit as int,
                j,
                i,
            )
    }

    /// The utility, regret and regret-order tables match the score
    /// matrix. `cand_by_regret[0]` holds the ideal candidate, so
    /// regrets are shortfalls against that candidate's total utility.
    pub open spec fn regrets_ok(self) -> bool {
        &&& forall|c: int|
            0 <= c < self.ncand ==> #[trigger] self.utilities@[c] == col_sum(
                self.scores@,
                self.ncit as int,
                c,
            )
        &&& sorted_perm(self.utilities@, self.cand_by_regret@)
        &&& forall|c: int|
            0 <= c < self.ncand ==> #[trigger] self.regrets@[c] == self.utilities@[self.cand_by_regret@[0] as int]
                - self.utilities@[c]
        &&& forall|k: int|
            0 <= k < self.ncand ==> self.regret_rank@[(#[trigger] self.cand_by_regret@[k]) as int]
                == k
    }

    /// The Smith markers match the margin matrix: at least one candidate
    /// is marked, and no unmarked candidate avoids defeat against any
    /// marked one.
    pub open spec fn smith_ok(self) -> bool {
        &&& exists|c: int| 0 <= c < self.ncand && self.in_smith_set@[c]
        &&& forall|i: int, j: int|
            0 <= i < self.ncand && 0 <= j < self.ncand && #[trigger] self.in_smith_set@[j]
                && !(#[trigger] self.in_smith_set@[i]) ==> self.i_beats_j_by@[i]@[j] < 0
    }

    /// A fresh workspace with an all-zero score matrix.
    pub fn new(ncand: usize, ncit: usize) -> (sim: Sim)
        requires
            1 <= ncand <= MAX_CANDIDATES,
            1 <= ncit <= MAX_VOTERS,
        ensures
            sim.wf(),
            sim.ncand == ncand,
            sim.ncit == ncit,
            forall|v: int, c: int| 0 <= v < ncit && 0 <= c < ncand ==> sim.scores@[v]@[c] == 0,
    {
        Sim {
            ncand,
            ncit,
            scores: filled_matrix(ncit, ncand, 0i64),
            ranks: filled_matrix(ncit, ncand, 0usize),
            i_beats_j_by: filled_matrix(ncand, ncand, 0i64),
            utilities: filled(ncand, 0i64),
            regrets: filled(ncand, 0i64),
            cand_by_regret: identity_ids(ncand),
            regret_rank: identity_ids(ncand),
            in_smith_set: filled(ncand, false),
        }
    }

    /// Rebuild `utilities`, `regrets`, `cand_by_regret` and `regret_rank`
    /// from the current score matrix.
    ///
    /// Afterwards the candidate at regret rank 0 holds the largest total
    /// utility, its own regret is zero, and no regret is negative.
    pub fn compute_regrets(&mut self)
        requires
            old(self).wf(),
        ensures
            final(self).wf(),
            final(self).regrets_ok(),
            final(self).ncand == old(self).ncand,
            final(self).ncit == old(self).ncit,
            final(self).scores == old(self).scores,
            final(self).ranks == old(self).ranks,
            final(self).i_beats_j_by == old(self).i_beats_j_by,
            final(self).in_smith_set == old(self).in_smith_set,
            final(self).regrets@[final(self).cand_by_regret@[0] as int] == 0,
            forall|c: int| 0 <= c < final(self).ncand ==> #[trigger] final(self).regrets@[c] >= 0,
            forall|c: int|
                0 <= c < final(self).ncand ==> #[trigger] final(self).utilities@[c]
                    <= final(self).utilities@[final(self).cand_by_regret@[0] as int],
    {
        let ncand = self.ncand;
        let ncit = self.ncit;
        let mut utilities: Vec<i64> = Vec::new();
        let mut c: usize = 0;
        while c < ncand
            invariant
                self.wf(),
                self.ncand == ncand,
                self.ncit == ncit,
                c <= ncand,
                utilities@.len() == c,
                forall|d: int|
                    0 <= d < c ==> #[trigger] utilities@[d] == col_sum(
                        self.scores@,
                        ncit as int,
                        d,
                    ),
                forall|d: int|
                    0 <= d < c ==> -(MAX_VOTERS as int) * (MAX_SCORE as int)
                        <= #[trigger] utilities@[d] <= (MAX_VOTERS as int) * (MAX_SCORE as int),
            decreases ncand - c,
        {
            let mut sum: i64 = 0;
            let mut v: usize = 0;
            while v < ncit
                invariant
                    self.wf(),
                    self.ncand == ncand,
                    self.ncit == ncit,
                    c < ncand,
                    v <= ncit,
                    sum == col_sum(self.scores@, v as int, c as int),
                    -(v as int) * (MAX_SCORE as int) <= sum <= (v as int) * (MAX_SCORE as int),
                decreases ncit - v,
            {
                proof {
                    assert(-(v as int) * (MAX_SCORE as int) - MAX_SCORE == -((v + 1) as int) * (
                    MAX_SCORE as int)) by (nonlinear_arith);
                    assert((v as int) * (MAX_SCORE as int) + MAX_SCORE == ((v + 1) as int) * (
                    MAX_SCORE as int)) by (nonlinear_arith);
                }
                sum = sum + self.scores[v][c];
                v += 1;
            }
            proof {
                assert((ncit as int) * (MAX_SCORE as int) <= (MAX_VOTERS as int) * (
                MAX_SCORE as int)) by (nonlinear_arith)
                    requires
                        ncit <= MAX_VOTERS,
                ;
            }
            utilities.push(sum);
            c += 1;
        }
        let cand_by_regret = sorted_ids_desc(&utilities);
        let best = cand_by_regret[0];
        let best_util = utilities[best];
        proof {
            assert forall|d: int| 0 <= d < ncand implies utilities@[d]
                <= utilities@[best as int] by {
                assert(cand_by_regret@.contains(d as usize));
                let k = choose|k: int|
                    0 <= k < cand_by_regret@.len() && cand_by_regret@[k] == d as usize;
                if k > 0 {
                    assert(crate::sorting::id_before(utilities@, best as int, d));
                }
            }
        }
        let mut regrets: Vec<i64> = Vec::new();
        let mut c2: usize = 0;
        while c2 < ncand
            invariant
                utilities@.len() == ncand,
                c2 <= ncand,
                best < ncand,
                best_util == utilities@[best as int],
                regrets@.len() == c2,
                forall|d: int|
                    0 <= d < ncand ==> -(MAX_VOTERS as int) * (MAX_SCORE as int)
                        <= #[trigger] utilities@[d] <= (MAX_VOTERS as int) * (MAX_SCORE as int),
                forall|d: int|
                    0 <= d < c2 ==> #[trigger] regrets@[d] == utilities@[best as int]
                        - utilities@[d],
            decreases ncand - c2,
        {
            regrets.push(best_util - utilities[c2]);
            c2 += 1;
        }
        let mut regret_rank: Vec<usize> = filled(ncand, 0usize);
        let mut k: usize = 0;
        while k < ncand
            invariant
                cand_by_regret@.len() == ncand,
                regret_rank@.len() == ncand,
                k <= ncand,
                forall|i: int| 0 <= i < ncand ==> (#[trigger] cand_by_regret@[i]) < ncand,
                forall|i: int|
                    0 <= i < k ==> regret_rank@[(#[trigger] cand_by_regret@[i]) as int] == i,
                forall|i1: int, i2: int|
                    0 <= i1 < i2 < ncand ==> crate::sorting::id_before(
                        utilities@,
                        cand_by_regret@[i1] as int,
                        cand_by_regret@[i2] as int,
                    ),
            decreases ncand - k,
        {
            let cand = cand_by_regret[k];
            regret_rank.set(cand, k);
            proof {
                assert forall|i: int|
                    0 <= i < k + 1 implies regret_rank@[(#[trigger] cand_by_regret@[i]) as int]
                    == i by {
                    if i < k {
                        assert(crate::sorting::id_before(
                            utilities@,
                            cand_by_regret@[i] as int,
                            cand_by_regret@[k as int] as int,
                        ));
                    }
                }
            }
            k += 1;
        }
        self.utilities = utilities;
        self.regrets = regrets;
        self.cand_by_regret = cand_by_regret;
        self.regret_rank = regret_rank;
    }

    /// Rebuild the rank table and the pairwise-margin matrix from the
    /// current score matrix.
    pub fn rank_candidates(&mut self)
        requires
            old(self).wf(),
        ensures
            final(self).wf(),
            final(self).ranks_ok(),
            final(self).margins_ok(),
            final(self).ncand == old(self).ncand,
            final(self).ncit == old(self).ncit,
            final(self).scores == old(self).scores,
            final(self).utilities == old(self).utilities,
            final(self).regrets == old(self).regrets,
            final(self).cand_by_regret == old(self).cand_by_regret,
            final(self).regret_rank == old(self).regret_rank,
            final(self).in_smith_set == old(self).in_smith_set,
    {
        let ncand = self.ncand;
        let ncit = self.ncit;
        let mut new_ranks: Vec<Vec<usize>> = Vec::new();
        let mut v: usize = 0;
        while v < ncit
            invariant
                self.wf(),
                self.ncand == ncand,
                self.ncit == ncit,
                v <= ncit,
                new_ranks@.len() == v,
                forall|i: int|
                    0 <= i < v ==> sorted_perm(self.scores@[i]@, (#[trigger] new_ranks@[i])@),
            decreases ncit - v,
        {
            let row = sorted_ids_desc(&self.scores[v]);
            new_ranks.push(row);
            v += 1;
        }
        let mut margins: Vec<Vec<i64>> = Vec::new();
        let mut i: usize = 0;
        while i < ncand
            invariant
                self.wf(),
                self.ncand == ncand,
                self.ncit == ncit,
                i <= ncand,
                margins@.len() == i,
                forall|a: int| 0 <= a < i ==> (#[trigger] margins@[a])@.len() == ncand,
                forall|a: int, b: int|
                    0 <= a < i && 0 <= b < ncand ==> #[trigger] margins@[a]@[b] == pref_cnt(
                        self.scores@,
                        ncit as int,
                        a,
                        b,
                    ) - pref_cnt(self.scores@, ncit as int, b, a),
            decreases ncand - i,
        {
            let mut row: Vec<i64> = Vec::new();
            let mut j: usize = 0;
            while j < ncand
                invariant
                    self.wf(),
                    self.ncand == ncand,
                    self.ncit == ncit,
                    i < ncand,
                    j <= ncand,
                    row@.len() == j,
                    forall|b: int|
                        0 <= b < j ==> #[trigger] row@[b] == pref_cnt(
                            self.scores@,
                            ncit as int,
                            i as int,
                            b,
                        ) - pref_cnt(self.scores@, ncit as int, b, i as int),
                decreases ncand - j,
            {
                let mut m: i64 = 0;
                let mut w: usize = 0;
                while w < ncit
                    invariant
                        self.wf(),
                        self.ncand == ncand,
                        self.ncit == ncit,
                        i < ncand,
                        j < ncand,
                        w <= ncit,
                        m == pref_cnt(self.scores@, w as int, i as int, j as int) - pref_cnt(
                            self.scores@,
                            w as int,
                            j as int,
                            i as int,
                        ),
                        -(w as int) <= m <= w as int,
                    decreases ncit - w,
                {
                    proof {
                        lemma_pref_cnt_bounds(self.scores@, w as int, i as int, j as int);
                        lemma_pref_cnt_bounds(self.scores@, w as int, j as int, i as int);
                    }
                    if self.scores[w][i] > self.scores[w][j] {
                        m = m + 1;
                    } else if self.scores[w][i] < self.scores[w][j] {
                        m = m - 1;
                    }
                    w += 1;
                }
                row.push(m);
                j += 1;
            }
            margins.push(row);
            i += 1;
        }
        self.ranks = new_ranks;
        self.i_beats_j_by = margins;
    }

    /// Mark the Smith set from the margin matrix. The rank table and the
    /// margins must already match the current scores.
    pub fn find_smith_set(&mut self)
        requires
            old(self).wf(),
        ensures
            final(self).wf(),
            final(self).smith_ok(),
            final(self).ncand == old(self).ncand,
            final(self).ncit == old(self).ncit,
            final(self).scores == old(self).scores,
            final(self).ranks == old(self).ranks,
            final(self).i_beats_j_by == old(self).i_beats_j_by,
            final(self).utilities == old(self).utilities,
            final(self).regrets == old(self).regrets,
            final(self).cand_by_regret == old(self).cand_by_regret,
            final(self).regret_rank == old(self).regret_rank,
    {
        mark_smith_candidates(self);
    }

    /// The number of candidates in the Smith set.
    pub fn smith_set_size(&self) -> (n: usize)
        requires
            self.wf(),
        ensures
            n == count_true(self.in_smith_set@, self.ncand as int),
            n <= self.ncand,
    {
        let ncand = self.ncand;
        let mut n: usize = 0;
        let mut c: usize = 0;
        while c < ncand
            invariant
                self.wf(),
                self.ncand == ncand,
                c <= ncand,
                n == count_true(self.in_smith_set@, c as int),
                n <= c,
            decreases ncand - c,
        {
            if self.in_smith_set[c] {
                n += 1;
            }
            c += 1;
        }
        n
    }

    /// If winner and runner-up report the same score, swap them exactly
    /// when strictly more voters score the runner-up above the winner
    /// than the other way around; otherwise return the result unchanged.
    pub fn break_tie_with_plurality(&self, result: &WinnerAndRunnerup) -> (r: WinnerAndRunnerup)
        requires
            self.wf(),
            result.winner.cand < self.ncand,
            result.runnerup.cand < self.ncand,
        ensures
            !result.tied() ==> r == *result,
            result.tied() ==> {
                let w = result.winner.cand as int;
                let ru = result.runnerup.cand as int;
                if pref_cnt(self.scores@, self.ncit as int, ru, w) > pref_cnt(
                    self.scores@,
                    self.ncit as int,
                    w,
                    ru,
                ) {
                    r == (WinnerAndRunnerup { winner: result.runnerup, runnerup: result.winner })
                } else {
                    r == *result
                }
            },
    {
        if !result.is_tied() {
            *result
        } else {
            let w = result.winner.cand;
            let ru = result.runnerup.cand;
            let ncit = self.ncit;
            let mut runup_votes: i64 = 0;
            let mut winner_votes: i64 = 0;
            let mut v: usize = 0;
            while v < ncit
                invariant
                    self.wf(),
                    self.ncit == ncit,
                    w < self.ncand,
                    ru < self.ncand,
                    v <= ncit,
                    winner_votes == pref_cnt(self.scores@, v as int, w as int, ru as int),
                    runup_votes == pref_cnt(self.scores@, v as int, ru as int, w as int),
                    0 <= winner_votes <= v,
                    0 <= runup_votes <= v,
                decreases ncit - v,
            {
                if self.scores[v][w] > self.scores[v][ru] {
                    winner_votes += 1;
                } else if self.scores[v][w] < self.scores[v][ru] {
                    runup_votes += 1;
                }
                v += 1;
            }
            if runup_votes > winner_votes {
                WinnerAndRunnerup { winner: result.runnerup, runnerup: result.winner }
            } else {
                *result
            }
        }
    }

    /// Run one election on a freshly generated score matrix: store the
    /// scores and derive regrets, rankings, margins and the Smith set.
    pub fn election(&mut self, scores: Vec<Vec<i64>>)
        requires
            old(self).wf(),
            scores@.len() == old(self).ncit,
            forall|v: int|
                0 <= v < old(self).ncit ==> (#[trigger] scores@[v])@.len() == old(self).ncand,
            forall|v: int, c: int|
                0 <= v < old(self).ncit && 0 <= c < old(self).ncand ==> -MAX_SCORE
                    <= #[trigger] scores@[v]@[c] <= MAX_SCORE,
        ensures
            final(self).wf(),
            final(self).ncand == old(self).ncand,
            final(self).ncit == old(self).ncit,
            final(self).scores == scores,
            final(self).regrets_ok(),
            final(self).ranks_ok(),
            final(self).margins_ok(),
            final(self).smith_ok(),
    {
        self.scores = scores;
        self.compute_regrets();
        self.rank_candidates();
        self.find_smith_set();
    }

    /// Replace this workspace's scores with the columns that the listed
    /// primary winners earned in the primary election, in the order
    /// given, then re-derive regrets, rankings and margins.
    pub fn take_from_primary(&mut self, primary: &Sim, winners: &Vec<ElectResult>)
        requires
            old(self).wf(),
            primary.wf(),
            primary.ncit == old(self).ncit,
            winners@.len() == old(self).ncand,
            forall|k: int|
                0 <= k < old(self).ncand ==> (#[trigger] winners@[k]).cand < primary.ncand,
        ensures
            final(self).wf(),
            final(self).ncand == old(self).ncand,
            final(self).ncit == old(self).ncit,
            forall|v: int, k: int|
                0 <= v < final(self).ncit && 0 <= k < final(self).ncand
                    ==> #[trigger] final(self).scores@[v]@[k] == primary.scores@[v]@[winners@[k].cand as int],
            final(self).regrets_ok(),
            final(self).ranks_ok(),
            final(self).margins_ok(),
            final(self).in_smith_set == old(self).in_smith_set,
    {
        let ncand = self.ncand;
        let ncit = self.ncit;
        let mut new_scores: Vec<Vec<i64>> = Vec::new();
        let mut v: usize = 0;
        while v < ncit
            invariant
                self.wf(),
                primary.wf(),
                self.ncand == ncand,
                self.ncit == ncit,
                primary.ncit == ncit,
                winners@.len() == ncand,
                forall|k: int| 0 <= k < ncand ==> (#[trigger] winners@[k]).cand < primary.ncand,
                v <= ncit,
                new_scores@.len() == v,
                forall|i: int| 0 <= i < v ==> (#[trigger] new_scores@[i])@.len() == ncand,
                forall|i: int, k: int|
                    0 <= i < v && 0 <= k < ncand ==> #[trigger] new_scores@[i]@[k]
                        == primary.scores@[i]@[winners@[k].cand as int],
                forall|i: int, k: int|
                    0 <= i < v && 0 <= k < ncand ==> -MAX_SCORE <= #[trigger] new_scores@[i]@[k]
                        <= MAX_SCORE,
            decreases ncit - v,
        {
            let mut row: Vec<i64> = Vec::new();
            let mut k: usize = 0;
            while k < ncand
                invariant
                    primary.wf(),
                    primary.ncit == ncit,
                    winners@.len() == ncand,
                    forall|k2: int|
                        0 <= k2 < ncand ==> (#[trigger] winners@[k2]).cand < primary.ncand,
                    v < ncit,
                    k <= ncand,
                    row@.len() == k,
                    forall|k2: int|
                        0 <= k2 < k ==> #[trigger] row@[k2] == primary.scores@[v as int]@[winners@[k2].cand as int],
                    forall|k2: int|
                        0 <= k2 < k ==> -MAX_SCORE <= #[trigger] row@[k2] <= MAX_SCORE,
                decreases ncand - k,
            {
                row.push(primary.scores[v][winners[k].cand]);
                k += 1;
            }
            new_scores.push(row);
            v += 1;
        }
        self.scores = new_scores;
        self.compute_regrets();
        self.rank_candidates();
    }
}

/// The candidate at regret rank 0 is an ideal winner: it holds a
/// maximal total utility, its regret is zero, and no candidate's
/// regret is negative.
pub proof fn lemma_ideal_candidate(sim: Sim)
    requires
        sim.wf(),
        sim.regrets_ok(),
    ensures
        sim.regrets@[sim.cand_by_regret@[0] as int] == 0,
        forall|c: int| 0 <= c < sim.ncand ==> #[trigger] sim.regrets@[c] >= 0,
        forall|c: int|
            0 <= c < sim.ncand ==> #[trigger] sim.utilities@[c] <= sim.utilities@[sim.cand_by_regret@[0] as int],
        forall|c: int|
            0 <= c < sim.ncand ==> #[trigger] sim.utilities@[c] == col_sum(
                sim.scores@,
                sim.ncit as int,
                c,
            ),
{
    let best = sim.cand_by_regret@[0];
    assert forall|c: int| 0 <= c < sim.ncand implies #[trigger] sim.utilities@[c]
        <= sim.utilities@[best as int] by {
        assert(sim.cand_by_regret@.contains(c as usize));
        let k = choose|k: int|
            0 <= k < sim.cand_by_regret@.len() && sim.cand_by_regret@[k] == c as usize;
        if k > 0 {
            assert(crate::sorting::id_before(sim.utilities@, best as int, c));
        }
    }
}

/// The margin matrix is antisymmetric with a zero diagonal, and every
/// entry is bounded by the voter count.
pub proof fn lemma_margins_antisymmetric(sim: Sim)
    requires
        sim.wf(),
        sim.margins_ok(),
    ensures
        forall|i: int, j: int|
            0 <= i < sim.ncand && 0 <= j < sim.ncand ==> #[trigger] sim.i_beats_j_by@[i]@[j] == -sim.i_beats_j_by@[j]@[i],
        forall|i: int| 0 <= i < sim.ncand ==> #[trigger] sim.i_beats_j_by@[i]@[i] == 0,
        forall|i: int, j: int|
            0 <= i < sim.ncand && 0 <= j < sim.ncand ==> -(sim.ncit as int)
                <= #[trigger] sim.i_beats_j_by@[i]@[j] <= sim.ncit as int,
{
    assert forall|i: int, j: int|
        0 <= i < sim.ncand && 0 <= j < sim.ncand implies -(sim.ncit as int)
        <= #[trigger] sim.i_beats_j_by@[i]@[j] <= sim.ncit as int by {
        lemma_pref_cnt_bounds(sim.scores@, sim.ncit as int, i, j);
        lemma_pref_cnt_bounds(sim.scores@, sim.ncit as int, j, i);
    }
}

/// Every row of the rank table is an arrangement of all candidates in
/// descending order of that voter's scores, equal scores ordered by
/// candidate index.
pub proof fn lemma_ranks_sorted(sim: Sim)
    requires
        sim.wf(),
        sim.ranks_ok(),
    ensures
        forall|v: int, c: usize|
            0 <= v < sim.ncit && c < sim.ncand ==> #[trigger] sim.ranks@[v]@.contains(c),
        forall|v: int, k1: int, k2: int|
            0 <= v < sim.ncit && 0 <= k1 < k2 < sim.ncand ==> sim.scores@[v]@[sim.ranks@[v]@[k1] as int]
                > sim.scores@[v]@[sim.ranks@[v]@[k2] as int] || (sim.scores@[v]@[sim.ranks@[v]@[k1] as int]
                == sim.scores@[v]@[sim.ranks@[v]@[k2] as int] && sim.ranks@[v]@[k1] < sim.ranks@[v]@[k2]),
{
    assert forall|v: int, k1: int, k2: int|
        0 <= v < sim.ncit && 0 <= k1 < k2 < sim.ncand implies sim.scores@[v]@[sim.ranks@[v]@[k1] as int]
        > sim.scores@[v]@[sim.ranks@[v]@[k2] as int] || (sim.scores@[v]@[sim.ranks@[v]@[k1] as int]
        == sim.scores@[v]@[sim.ranks@[v]@[k2] as int] && sim.ranks@[v]@[k1]
        < sim.ranks@[v]@[k2]) by {
        assert(crate::sorting::id_before(
            sim.scores@[v]@,
            sim.ranks@[v]@[k1] as int,
            sim.ranks@[v]@[k2] as int,
        ));
    }
}

/// The Smith set is never empty, and every member holds a
/// non-negative margin against every non-member.
pub proof fn lemma_smith_set(sim: Sim)
    requires
        sim.wf(),
        sim.margins_ok(),
        sim.smith_ok(),
    ensures
        exists|c: int| 0 <= c < sim.ncand && sim.in_smith_set@[c],
        forall|i: int, j: int|
            0 <= i < sim.ncand && 0 <= j < sim.ncand && #[trigger] sim.in_smith_set@[j] && !(
            #[trigger] sim.in_smith_set@[i]) ==> sim.i_beats_j_by@[j]@[i] >= 0,
{
    lemma_margins_antisymmetric(sim);
}

} // verus!
