//! Multivote: every voter casts a fixed number of votes.
//!
//! Strategic voters put all their votes on their favorite. Honest
//! voters spread: each vote goes to the candidate with the highest
//! remaining personal score, and that candidate's score is then
//! reduced by a penalty proportional to the spread of the voter's
//! utilities, so later votes spill over to second favorites. All
//! per-voter arithmetic is exact: scores are scaled by `votes` times
//! the spread factor's denominator, so the penalty is an integer.

use super::plurality::plu_cnt;
use super::results::{Strategy, WinnerAndRunnerup};
use super::rangevoting::seq_min;
use super::tallies::{tallied, tally_votes, Tallies};
use crate::sim::Sim;
use crate::tables::filled;
use crate::{MAX_CANDIDATES, MAX_SCORE, MAX_SPREAD, MAX_VOTES};
use vstd::prelude::*;
use vstd::string::StringExecFns;

verus! {

/// Sum of a voter's utility row.
pub open spec fn row_total(row: Seq<i64>, n: int) -> int
    decreases n,
{
    if n <= 0 {
        0
    } else {
        row_total(row, n - 1) + row[n - 1]
    }
}

/// Earliest position of the maximum among the first `n` entries.
pub open spec fn mv_argmax(s: Seq<int>, n: int) -> int
    decreases n,
{
    if n <= 1 {
        0
    } else {
        let r = mv_argmax(s, n - 1);
        if s[n - 1] > s[r] {
            n - 1
        } else {
            r
        }
    }
}

/// A voter's working scores after `t` votes: each vote reduced the
/// then-highest score by `reduction`.
pub open spec fn mv_scores(init: Seq<int>, reduction: int, t: nat) -> Seq<int>
    decreases t,
{
    if t == 0 {
        init
    } else {
        let s = mv_scores(init, reduction, (t - 1) as nat);
        let b = mv_argmax(s, s.len() as int);
        s.update(b, s[b] - reduction)
    }
}

/// How many of a voter's first `t` votes went to candidate `c`.
pub open spec fn mv_votes(init: Seq<int>, reduction: int, t: nat, c: int) -> int
    decreases t,
{
    if t == 0 {
        0
    } else {
        let s = mv_scores(init, reduction, (t - 1) as nat);
        mv_votes(init, reduction, (t - 1) as nat, c) + if mv_argmax(s, s.len() as int) == c {
            1int
        } else {
            0int
        }
    }
}

pub proof fn lemma_mv_argmax_range(s: Seq<int>, n: int)
    requires
        1 <= n,
    ensures
        0 <= mv_argmax(s, n) < n,
    decreases n,
{
    if n > 1 {
        lemma_mv_argmax_range(s, n - 1);
    }
}

pub proof fn lemma_mv_scores_len(init: Seq<int>, reduction: int, t: nat)
    requires
        init.len() >= 1,
    ensures
        mv_scores(init, reduction, t).len() == init.len(),
    decreases t,
{
    if t > 0 {
        lemma_mv_scores_len(init, reduction, (t - 1) as nat);
        lemma_mv_argmax_range(
            mv_scores(init, reduction, (t - 1) as nat),
            mv_scores(init, reduction, (t - 1) as nat).len() as int,
        );
    }
}

/// The integer views of a vector of scaled scores.
pub open spec fn as_ints(v: Seq<i128>) -> Seq<int> {
    Seq::new(v.len(), |k: int| v[k] as int)
}

/// The scaled starting scores of one voter: utilities times
/// `votes * spread_den`, so that the per-vote penalty is an integer.
pub open spec fn mv_init(row: Seq<i64>, votes: int, spread_den: int) -> Seq<int> {
    Seq::new(row.len(), |j: int| row[j] * votes * spread_den)
}

/// The scaled per-vote penalty of one voter:
/// `spread_num * (total - min * ncand)` in the same scale.
pub open spec fn mv_reduction(row: Seq<i64>, spread_num: int) -> int {
    spread_num * (row_total(row, row.len() as int) - seq_min(row, row.len() as int) * row.len())
}

/// Honest Multivote tally for candidate `c` over the first `n` voters.
pub open spec fn mv_cnt(
    scores: Seq<Vec<i64>>,
    n: int,
    c: int,
    votes: int,
    spread_num: int,
    spread_den: int,
) -> int
    decreases n,
{
    if n <= 0 {
        0
    } else {
        mv_cnt(scores, n - 1, c, votes, spread_num, spread_den) + mv_votes(
            mv_init(scores[n - 1]@, votes, spread_den),
            mv_reduction(scores[n - 1]@, spread_num),
            votes as nat,
            c,
        )
    }
}

#[derive(Debug, Clone, Copy, PartialEq, Eq, Structural)]
pub struct Multivote {
    pub strat: Strategy,
    /// Votes each voter casts.
    pub votes: i64,
    /// Spread factor as an exact fraction `spread_num / spread_den`.
    pub spread_num: i64,
    pub spread_den: i64,
}

pub struct MultivoteSim {
    pub p: Multivote,
    pub tallies: Tallies,
}

impl Multivote {
    pub fn new_sim(&self, sim: &Sim) -> (m: MultivoteSim)
        requires
            sim.wf(),
        ensures
            m.p == *self,
            m.tallies@.len() == sim.ncand,
    {
        MultivoteSim { p: *self, tallies: filled(sim.ncand, 0i64) }
    }
}

impl MultivoteSim {
    /// Run the election. Strategic: each voter's full vote count goes
    /// to their top-ranked candidate. Honest: votes spread greedily as
    /// [`mv_votes`] describes.
    pub fn elect(&mut self, sim: &Sim, _honest_rslt: Option<WinnerAndRunnerup>) -> (r:
        WinnerAndRunnerup)
        requires
            sim.wf(),
            sim.ranks_ok(),
            sim.ncand >= 2,
            1 <= old(self).p.votes <= MAX_VOTES,
            1 <= old(self).p.spread_num <= MAX_SPREAD,
            1 <= old(self).p.spread_den <= MAX_SPREAD,
        ensures
            final(self).p == old(self).p,
            final(self).tallies@.len() == sim.ncand,
            tallied(final(self).tallies@, r),
            old(self).p.strat == Strategy::Strategic ==> forall|c: int|
                0 <= c < sim.ncand ==> #[trigger] final(self).tallies@[c] == old(self).p.votes
                    * plu_cnt(sim.ranks@, sim.ncit as int, c),
            old(self).p.strat == Strategy::Honest ==> forall|c: int|
                0 <= c < sim.ncand ==> #[trigger] final(self).tallies@[c] == mv_cnt(
                    sim.scores@,
                    sim.ncit as int,
                    c,
                    old(self).p.votes as int,
                    old(self).p.spread_num as int,
                    old(self).p.spread_den as int,
                ),
    {
        let ncand = sim.ncand;
        let ncit = sim.ncit;
        let votes = self.p.votes;
        match self.p.strat {
            Strategy::Strategic => {
                let mut tallies: Tallies = filled(ncand, 0i64);
                let mut v: usize = 0;
                while v < ncit
                    invariant
                        sim.wf(),
                        sim.ranks_ok(),
                        sim.ncand == ncand,
                        sim.ncit == ncit,
                        1 <= votes <= MAX_VOTES,
                        v <= ncit,
                        tallies@.len() == ncand,
                        forall|c: int|
                            0 <= c < ncand ==> #[trigger] tallies@[c] == votes * plu_cnt(
                                sim.ranks@,
                                v as int,
                                c,
                            ),
                        forall|c: int|
                            0 <= c < ncand ==> 0 <= #[trigger] tallies@[c] <= (v as int) * (
                            votes as int),
                    decreases ncit - v,
                {
                    let top = sim.ranks[v][0];
                    let t = tallies[top];
                    proof {
                        assert((v as int) * (votes as int) + votes <= ((v + 1) as int) * (
                        votes as int)) by (nonlinear_arith)
                            requires
                                1 <= votes,
                        ;
                        assert(((v + 1) as int) * (votes as int) <= (crate::MAX_VOTERS as int) * (
                        MAX_VOTES as int)) by (nonlinear_arith)
                            requires
                                0 <= v < ncit <= crate::MAX_VOTERS,
                                1 <= votes <= MAX_VOTES,
                        ;
                        assert(votes * plu_cnt(sim.ranks@, v as int + 1, top as int) == votes
                            * plu_cnt(sim.ranks@, v as int, top as int) + votes) by (
                        nonlinear_arith)
                            requires
                                plu_cnt(sim.ranks@, v as int + 1, top as int) == plu_cnt(
                                    sim.ranks@,
                                    v as int,
                                    top as int,
                                ) + 1,
                        ;
                    }
                    tallies.set(top, t + votes);
                    v += 1;
                }
                self.tallies = tallies;
            },
            Strategy::Honest => {
                self.tallies = mv_honest_tallies(
                    sim,
                    votes,
                    self.p.spread_num,
                    self.p.spread_den,
                );
            },
        }
        tally_votes(&self.tallies)
    }

    pub fn name(&self) -> (s: String)
        ensures
            1 <= self.p.votes <= MAX_VOTES ==> s@ == "Multivote, "@
                + super::results::strategy_word(self.p.strat) + ", "@ + crate::tables::dec_rep(
                self.p.votes as nat,
            ) + " votes"@,
    {
        let mut s = String::from_str("Multivote, ");
        match self.p.strat {
            Strategy::Honest => s.append("Honest"),
            Strategy::Strategic => s.append("Strategic"),
        }
        s.append(", ");
        if 0 <= self.p.votes && self.p.votes <= MAX_VOTES {
            let num = crate::tables::usize_to_string(self.p.votes as usize);
            s.append(num.as_str());
        }
        s.append(" votes");
        s
    }

    pub fn colname(&self) -> (s: String)
        ensures
            1 <= self.p.votes <= MAX_VOTES ==> s@ == "multi_"@ + super::results::strategy_letter(
                self.p.strat,
            ) + "_"@ + crate::tables::dec_rep(self.p.votes as nat) + "v"@,
    {
        let mut s = String::from_str("multi_");
        match self.p.strat {
            Strategy::Honest => s.append("h"),
            Strategy::Strategic => s.append("s"),
        }
        s.append("_");
        if 0 <= self.p.votes && self.p.votes <= MAX_VOTES {
            let num = crate::tables::usize_to_string(self.p.votes as usize);
            s.append(num.as_str());
        }
        s.append("v");
        s
    }

    pub fn strat(&self) -> (s: Strategy)
        ensures
            s == self.p.strat,
    {
        self.p.strat
    }
}

/// Spread every voter's votes greedily over their scaled scores.
fn mv_honest_tallies(sim: &Sim, votes: i64, spread_num: i64, spread_den: i64) -> (tallies: Tallies)
    requires
        sim.wf(),
        1 <= votes <= MAX_VOTES,
        1 <= spread_num <= MAX_SPREAD,
        1 <= spread_den <= MAX_SPREAD,
    ensures
        tallies@.len() == sim.ncand,
        forall|c: int|
            0 <= c < sim.ncand ==> #[trigger] tallies@[c] == mv_cnt(
                sim.scores@,
                sim.ncit as int,
                c,
                votes as int,
                spread_num as int,
                spread_den as int,
            ),
{
    let ncand = sim.ncand;
    let ncit = sim.ncit;
    let mut tallies: Tallies = filled(ncand, 0i64);
    let mut v: usize = 0;
    while v < ncit
        invariant
            sim.wf(),
            sim.ncand == ncand,
            sim.ncit == ncit,
            1 <= votes <= MAX_VOTES,
            1 <= spread_num <= MAX_SPREAD,
            1 <= spread_den <= MAX_SPREAD,
            v <= ncit,
            tallies@.len() == ncand,
            forall|c: int|
                0 <= c < ncand ==> #[trigger] tallies@[c] == mv_cnt(
                    sim.scores@,
                    v as int,
                    c,
                    votes as int,
                    spread_num as int,
                    spread_den as int,
                ),
            forall|c: int|
                0 <= c < ncand ==> 0 <= #[trigger] tallies@[c] <= (v as int) * (votes as int),
        decreases ncit - v,
    {
        let ghost row = sim.scores@[v as int]@;
        // scaled working scores of this voter
        let mut cur: Vec<i128> = Vec::new();
        let mut j: usize = 0;
        while j < ncand
            invariant
                sim.wf(),
                sim.ncand == ncand,
                sim.ncit == ncit,
                1 <= votes <= MAX_VOTES,
                1 <= spread_den <= MAX_SPREAD,
                v < ncit,
                j <= ncand,
                row == sim.scores@[v as int]@,
                cur@.len() == j,
                forall|k: int|
                    0 <= k < j ==> #[trigger] cur@[k] as int == mv_init(
                        row,
                        votes as int,
                        spread_den as int,
                    )[k],
                forall|k: int|
                    0 <= k < j ==> -0x2000_0000_0000_0000 <= #[trigger] cur@[k]
                        <= 0x2000_0000_0000_0000,
            decreases ncand - j,
        {
            proof {
                assert(-0x200_0000_0000 <= (sim.scores@[v as int]@[j as int] as int) * (
                votes as int) <= 0x200_0000_0000) by (nonlinear_arith)
                    requires
                        -MAX_SCORE <= sim.scores@[v as int]@[j as int] <= MAX_SCORE,
                        1 <= votes <= MAX_VOTES,
                ;
                assert(-0x2000_0000_0000_0000 <= (sim.scores@[v as int]@[j as int] as int) * (
                votes as int) * (spread_den as int) <= 0x2000_0000_0000_0000) by (nonlinear_arith)
                    requires
                        -0x200_0000_0000 <= (sim.scores@[v as int]@[j as int] as int) * (
                        votes as int) <= 0x200_0000_0000,
                        1 <= spread_den <= MAX_SPREAD,
                ;
            }
            let x: i128 = (sim.scores[v][j] as i128) * (votes as i128) * (spread_den as i128);
            cur.push(x);
            j += 1;
        }
        // scaled per-vote penalty
        let mut ttl: i128 = 0;
        let mut mn: i128 = sim.scores[v][0] as i128;
        let mut k: usize = 0;
        while k < ncand
            invariant
                sim.wf(),
                sim.ncand == ncand,
                sim.ncit == ncit,
                v < ncit,
                k <= ncand,
                row == sim.scores@[v as int]@,
                ttl == row_total(row, k as int),
                -(k as int) * (MAX_SCORE as int) <= ttl <= (k as int) * (MAX_SCORE as int),
                k == 0 ==> mn == row[0] as int,
                k > 0 ==> mn == seq_min(row, k as int),
                -MAX_SCORE <= mn <= MAX_SCORE,
            decreases ncand - k,
        {
            proof {
                assert(-((k + 1) as int) * (MAX_SCORE as int) <= ttl + sim.scores@[v as int]@[k as int]
                    <= ((k + 1) as int) * (MAX_SCORE as int)) by (nonlinear_arith)
                    requires
                        -(k as int) * (MAX_SCORE as int) <= ttl <= (k as int) * (MAX_SCORE as int),
                        -MAX_SCORE <= sim.scores@[v as int]@[k as int] <= MAX_SCORE,
                ;
            }
            ttl = ttl + sim.scores[v][k] as i128;
            if (sim.scores[v][k] as i128) < mn {
                mn = sim.scores[v][k] as i128;
            }
            k += 1;
        }
        proof {
            assert(seq_min(row, 1) == row[0]);
        }
        let reduction: i128;
        proof {
            assert(-0x1_0000_0000_0000_0000_0000 <= (spread_num as int) * (ttl as int - (mn as int)
                * (ncand as int)) <= 0x1_0000_0000_0000_0000_0000) by (nonlinear_arith)
                requires
                    1 <= spread_num <= MAX_SPREAD,
                    -(ncand as int) * (MAX_SCORE as int) <= ttl <= (ncand as int) * (
                    MAX_SCORE as int),
                    -MAX_SCORE <= mn <= MAX_SCORE,
                    1 <= ncand <= MAX_CANDIDATES,
            ;
            assert(-0x1_0000_0000_0000 <= (mn as int) * (ncand as int) <= 0x1_0000_0000_0000) by (
            nonlinear_arith)
                requires
                    -MAX_SCORE <= mn <= MAX_SCORE,
                    1 <= ncand <= MAX_CANDIDATES,
            ;
        }
        reduction = (spread_num as i128) * (ttl - mn * (ncand as i128));
        let ghost ginit = mv_init(row, votes as int, spread_den as int);
        let ghost gred = mv_reduction(row, spread_num as int);
        proof {
            assert(gred == reduction as int);
        }
        // cast the votes
        let mut t: i64 = 0;
        let mut voter_counts: Vec<i64> = filled(ncand, 0i64);
        while t < votes
            invariant
                sim.wf(),
                sim.ncand == ncand,
                1 <= votes <= MAX_VOTES,
                0 <= t <= votes,
                cur@.len() == ncand,
                voter_counts@.len() == ncand,
                ginit.len() == ncand,
                -0x1_0000_0000_0000_0000_0000 <= reduction <= 0x1_0000_0000_0000_0000_0000,
                gred == reduction as int,
                forall|k2: int|
                    0 <= k2 < ncand ==> #[trigger] cur@[k2] as int == mv_scores(
                        ginit,
                        gred,
                        t as nat,
                    )[k2],
                forall|k2: int|
                    0 <= k2 < ncand ==> -0x2000_0000_0000_0000 - (t as int)
                        * 0x1_0000_0000_0000_0000_0000 <= #[trigger] cur@[k2]
                        <= 0x2000_0000_0000_0000 + (t as int) * 0x1_0000_0000_0000_0000_0000,
                forall|c: int|
                    0 <= c < ncand ==> #[trigger] voter_counts@[c] == mv_votes(
                        ginit,
                        gred,
                        t as nat,
                        c,
                    ),
                forall|c: int| 0 <= c < ncand ==> 0 <= #[trigger] voter_counts@[c] <= t,
            decreases votes - t,
        {
            proof {
                lemma_mv_scores_len(ginit, gred, t as nat);
                lemma_mv_scores_len(ginit, gred, (t + 1) as nat);
            }
            let mut best: usize = 0;
            let mut b: usize = 1;
            while b < ncand
                invariant
                    cur@.len() == ncand,
                    1 <= b <= ncand,
                    best < b,
                    best as int == mv_argmax(as_ints(cur@), b as int),
                decreases ncand - b,
            {
                if cur[b] > cur[best] {
                    best = b;
                }
                b += 1;
            }
            proof {
                assert(as_ints(cur@) =~= mv_scores(ginit, gred, t as nat));
                assert(best as int == mv_argmax(
                    mv_scores(ginit, gred, t as nat),
                    mv_scores(ginit, gred, t as nat).len() as int,
                ));
            }
            let vc = voter_counts[best];
            voter_counts.set(best, vc + 1);
            let cb = cur[best];
            let ghost prev_scores = mv_scores(ginit, gred, t as nat);
            cur.set(best, cb - reduction);
            proof {
                assert(as_ints(cur@) =~= prev_scores.update(
                    best as int,
                    prev_scores[best as int] - gred,
                ));
            }
            t += 1;
        }
        // add this voter's votes into the running tallies
        let mut c2: usize = 0;
        proof {
            assert forall|c: int| 0 <= c < ncand implies mv_cnt(
                sim.scores@,
                v as int + 1,
                c,
                votes as int,
                spread_num as int,
                spread_den as int,
            ) == mv_cnt(sim.scores@, v as int, c, votes as int, spread_num as int, spread_den as int)
                + voter_counts@[c] by {}
        }
        while c2 < ncand
            invariant
                sim.wf(),
                sim.ncand == ncand,
                sim.ncit == ncit,
                1 <= votes <= MAX_VOTES,
                v < ncit,
                c2 <= ncand,
                tallies@.len() == ncand,
                voter_counts@.len() == ncand,
                forall|c: int| 0 <= c < ncand ==> 0 <= #[trigger] voter_counts@[c] <= votes,
                forall|c: int|
                    0 <= c < ncand ==> mv_cnt(
                        sim.scores@,
                        v as int + 1,
                        c,
                        votes as int,
                        spread_num as int,
                        spread_den as int,
                    ) == mv_cnt(
                        sim.scores@,
                        v as int,
                        c,
                        votes as int,
                        spread_num as int,
                        spread_den as int,
                    ) + voter_counts@[c],
                forall|c: int|
                    c2 <= c < ncand ==> #[trigger] tallies@[c] == mv_cnt(
                        sim.scores@,
                        v as int,
                        c,
                        votes as int,
                        spread_num as int,
                        spread_den as int,
                    ) && 0 <= tallies@[c] <= (v as int) * (votes as int),
                forall|c: int|
                    0 <= c < c2 ==> #[trigger] tallies@[c] == mv_cnt(
                        sim.scores@,
                        v as int + 1,
                        c,
                        votes as int,
                        spread_num as int,
                        spread_den as int,
                    ) && 0 <= tallies@[c] <= ((v + 1) as int) * (votes as int),
            decreases ncand - c2,
        {
            proof {
                assert((v as int) * (votes as int) + votes <= ((v + 1) as int) * (votes as int)
                    <= (crate::MAX_VOTERS as int) * (MAX_VOTES as int)) by (nonlinear_arith)
                    requires
                        0 <= v < ncit <= crate::MAX_VOTERS,
                        1 <= votes <= MAX_VOTES,
                ;
            }
            let tt = tallies[c2];
            tallies.set(c2, tt + voter_counts[c2]);
            c2 += 1;
        }
        v += 1;
    }
    tallies
}

} // verus!
