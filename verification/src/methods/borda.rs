//! The Borda count, a ranked voting method.
//!
//! Every voter ranks all candidates; the candidate ranked `k`-th on a
//! ballot earns `top_n - k` points (zero once `k` reaches `top_n`, which
//! is the candidate count unless the method is limited to ranking only
//! the first `top_n` favorites). Strategic voters push their preferred
//! front-runner to the top slot and the feared one to zero points,
//! shifting the candidates between them so the feared one lands exactly
//! on zero.

use super::results::{Strategy, WinnerAndRunnerup};
use super::tallies::{tallied, tally_votes, Tallies};
use crate::sim::Sim;
use crate::tables::{filled, usize_to_string};
use vstd::prelude::*;
use vstd::string::StringExecFns;

verus! {

/// First position of `c` in `row` at or after `k` (`row.len()` if absent).
pub open spec fn pos_in(row: Seq<usize>, c: usize, k: int) -> int
    decreases row.len() - k,
{
    if k < 0 || k >= row.len() {
        row.len() as int
    } else if row[k] == c {
        k
    } else {
        pos_in(row, c, k + 1)
    }
}

pub proof fn lemma_pos_in_from(row: Seq<usize>, c: usize, j: int, k: int)
    requires
        0 <= j <= k < row.len(),
        row[k] == c,
        forall|i: int| j <= i < k ==> row[i] != c,
    ensures
        pos_in(row, c, j) == k,
    decreases k - j,
{
    if j < k {
        lemma_pos_in_from(row, c, j + 1, k);
    }
}

pub proof fn lemma_pos_in_hits(row: Seq<usize>, c: usize, j: int)
    requires
        0 <= j <= row.len(),
        pos_in(row, c, j) < row.len(),
    ensures
        row[pos_in(row, c, j)] == c,
        j <= pos_in(row, c, j),
    decreases row.len() - j,
{
    if j < row.len() && row[j] != c {
        lemma_pos_in_hits(row, c, j + 1);
    }
}

pub proof fn lemma_pos_in_exists(row: Seq<usize>, c: usize, j: int)
    requires
        0 <= j <= row.len(),
        exists|i: int| j <= i < row.len() && row[i] == c,
    ensures
        j <= pos_in(row, c, j) < row.len(),
    decreases row.len() - j,
{
    if j < row.len() && row[j] != c {
        let i = choose|i: int| j <= i < row.len() && row[i] == c;
        assert(j + 1 <= i);
        lemma_pos_in_exists(row, c, j + 1);
    }
}

pub proof fn lemma_pos_in_nonneg(row: Seq<usize>, c: usize, j: int)
    requires
        0 <= j <= row.len(),
    ensures
        pos_in(row, c, j) >= j,
    decreases row.len() - j,
{
    if j < row.len() && row[j] != c {
        lemma_pos_in_nonneg(row, c, j + 1);
    }
}

/// Points an honest ballot gives the candidate in position `k`.
pub open spec fn borda_points(top_n: int, k: int) -> int {
    if k < top_n {
        top_n - k
    } else {
        0
    }
}

/// Honest Borda tally of candidate `c` over the first `n` voters.
pub open spec fn borda_cnt(ranks: Seq<Vec<usize>>, n: int, c: usize, top_n: int) -> int
    decreases n,
{
    if n <= 0 {
        0
    } else {
        borda_cnt(ranks, n - 1, c, top_n) + borda_points(top_n, pos_in(ranks[n - 1]@, c, 0))
    }
}

pub proof fn lemma_borda_cnt_bounds(ranks: Seq<Vec<usize>>, n: int, c: usize, top_n: int)
    requires
        0 <= n,
        1 <= top_n,
    ensures
        0 <= borda_cnt(ranks, n, c, top_n) <= n * top_n,
    decreases n,
{
    if n > 0 {
        lemma_borda_cnt_bounds(ranks, n - 1, c, top_n);
        lemma_pos_in_nonneg(ranks[n - 1]@, c, 0);
        assert((n - 1) * top_n + top_n == n * top_n) by (nonlinear_arith);
    }
}

/// The front-runner this voter scores at least as high as the other.
pub open spec fn friend_of(scores_row: Seq<i64>, pw: usize, pru: usize) -> usize {
    if scores_row[pw as int] >= scores_row[pru as int] {
        pw
    } else {
        pru
    }
}

pub open spec fn enemy_of(scores_row: Seq<i64>, pw: usize, pru: usize) -> usize {
    if scores_row[pw as int] >= scores_row[pru as int] {
        pru
    } else {
        pw
    }
}

/// Points a strategic ballot gives candidate `c`: the friend takes the
/// top slot, the enemy zero, and everyone else keeps relative order with
/// points shifted so that the enemy sits exactly at zero; shifted points
/// that end at or below zero are not awarded.
pub open spec fn borda_strat_points(
    row: Seq<usize>,
    c: usize,
    top_n: int,
    friend: usize,
    enemy: usize,
) -> int {
    let k = pos_in(row, c, 0);
    let shift = -2 + (if pos_in(row, friend, 0) < k {
        1int
    } else {
        0int
    }) + (if enemy != friend && pos_in(row, enemy, 0) < k {
        1int
    } else {
        0int
    });
    if c == friend {
        top_n - 1
    } else if c == enemy {
        0
    } else if top_n - k + shift > 0 {
        top_n - k + shift
    } else {
        0
    }
}

pub proof fn lemma_strat_points_bounds(
    row: Seq<usize>,
    c: usize,
    top_n: int,
    friend: usize,
    enemy: usize,
)
    requires
        1 <= top_n,
    ensures
        0 <= borda_strat_points(row, c, top_n, friend, enemy) <= top_n,
{
    lemma_pos_in_nonneg(row, c, 0);
}

/// Strategic Borda tally of candidate `c` over the first `n` voters,
/// with pre-election winner `pw` and runner-up `pru`.
pub open spec fn borda_strat_cnt(
    ranks: Seq<Vec<usize>>,
    scores: Seq<Vec<i64>>,
    n: int,
    c: usize,
    top_n: int,
    pw: usize,
    pru: usize,
) -> int
    decreases n,
{
    if n <= 0 {
        0
    } else {
        borda_strat_cnt(ranks, scores, n - 1, c, top_n, pw, pru) + borda_strat_points(
            ranks[n - 1]@,
            c,
            top_n,
            friend_of(scores[n - 1]@, pw, pru),
            enemy_of(scores[n - 1]@, pw, pru),
        )
    }
}

pub proof fn lemma_borda_strat_cnt_bounds(
    ranks: Seq<Vec<usize>>,
    scores: Seq<Vec<i64>>,
    n: int,
    c: usize,
    top_n: int,
    pw: usize,
    pru: usize,
)
    requires
        0 <= n,
        1 <= top_n,
    ensures
        0 <= borda_strat_cnt(ranks, scores, n, c, top_n, pw, pru) <= n * top_n,
    decreases n,
{
    if n > 0 {
        lemma_borda_strat_cnt_bounds(ranks, scores, n - 1, c, top_n, pw, pru);
        lemma_strat_points_bounds(
            ranks[n - 1]@,
            c,
            top_n,
            friend_of(scores[n - 1]@, pw, pru),
            enemy_of(scores[n - 1]@, pw, pru),
        );
        assert((n - 1) * top_n + top_n == n * top_n) by (nonlinear_arith);
    }
}

/// Rows of a well-ranked table never repeat a candidate.
pub proof fn lemma_row_distinct(sim: &Sim, v: int)
    requires
        sim.wf(),
        sim.ranks_ok(),
        0 <= v < sim.ncit,
    ensures
        forall|k1: int, k2: int|
            0 <= k1 < k2 < sim.ranks@[v]@.len() ==> sim.ranks@[v]@[k1] != sim.ranks@[v]@[k2],
{
    assert forall|k1: int, k2: int|
        0 <= k1 < k2 < sim.ranks@[v]@.len() implies sim.ranks@[v]@[k1] != sim.ranks@[v]@[k2] by {
        assert(crate::sorting::id_before(
            sim.scores@[v]@,
            sim.ranks@[v]@[k1] as int,
            sim.ranks@[v]@[k2] as int,
        ));
    }
}

/// Points candidate `c` has already received from the first `k`
/// positions of this ballot, honestly scored.
pub open spec fn partial_points(row: Seq<usize>, c: usize, k: int, top_n: int) -> int {
    if pos_in(row, c, 0) < k {
        borda_points(top_n, pos_in(row, c, 0))
    } else {
        0
    }
}

/// Strategic points candidate `c` has already received from the first
/// `k` positions of this ballot.
pub open spec fn strat_partial_points(
    row: Seq<usize>,
    c: usize,
    k: int,
    top_n: int,
    friend: usize,
    enemy: usize,
) -> int {
    if pos_in(row, c, 0) < k {
        borda_strat_points(row, c, top_n, friend, enemy)
    } else {
        0
    }
}

#[derive(Debug, Clone, Copy, PartialEq, Eq, Structural)]
pub struct Borda {
    /// Strategic ballots rank the two pre-election front-runners first
    /// and last depending on the voter's preference between them.
    pub strat: Strategy,
    /// When set, only the first `rank_top_n` ranks on a ballot earn
    /// points, a simplification usable by small groups.
    pub rank_top_n: Option<usize>,
}

impl Borda {
    /// Ranks that earn points on a ballot with `ncand` candidates.
    pub open spec fn spec_top_n(self, ncand: int) -> int {
        match self.rank_top_n {
            Some(n) => n as int,
            None => ncand,
        }
    }

    pub fn new_sim(&self, sim: &Sim) -> (m: BordaSim)
        requires
            sim.wf(),
        ensures
            m.p == *self,
            m.tallies@.len() == sim.ncand,
    {
        BordaSim { p: *self, tallies: filled(sim.ncand, 0i64) }
    }
}

pub struct BordaSim {
    pub p: Borda,
    pub tallies: Tallies,
}

impl BordaSim {
    /// Run the election: fill the tallies with each candidate's Borda
    /// count, honest or strategic, and read the winner off them.
    pub fn elect(&mut self, sim: &Sim, honest_rslt: Option<WinnerAndRunnerup>) -> (r:
        WinnerAndRunnerup)
        requires
            sim.wf(),
            sim.ranks_ok(),
            sim.ncand >= 2,
            old(self).p.rank_top_n matches Some(n) ==> 1 <= n <= sim.ncand,
            old(self).p.strat == Strategy::Strategic ==> (honest_rslt matches Some(pre)
                && pre.winner.cand < sim.ncand && pre.runnerup.cand < sim.ncand),
        ensures
            final(self).p == old(self).p,
            final(self).tallies@.len() == sim.ncand,
            tallied(final(self).tallies@, r),
            old(self).p.strat == Strategy::Honest ==> forall|c: usize|
                c < sim.ncand ==> final(self).tallies@[c as int] == borda_cnt(
                    sim.ranks@,
                    sim.ncit as int,
                    c,
                    old(self).p.spec_top_n(sim.ncand as int),
                ),
            old(self).p.strat == Strategy::Strategic ==> forall|c: usize|
                c < sim.ncand ==> final(self).tallies@[c as int] == borda_strat_cnt(
                    sim.ranks@,
                    sim.scores@,
                    sim.ncit as int,
                    c,
                    old(self).p.spec_top_n(sim.ncand as int),
                    honest_rslt->0.winner.cand,
                    honest_rslt->0.runnerup.cand,
                ),
    {
        let ncand = sim.ncand;
        let top_n: usize = match self.p.rank_top_n {
            Some(n) => n,
            None => ncand,
        };
        match self.p.strat {
            Strategy::Honest => {
                self.tallies = borda_honest_tallies(sim, top_n);
            },
            Strategy::Strategic => {
                let pre = honest_rslt.unwrap();
                self.tallies = borda_strategic_tallies(
                    sim,
                    top_n,
                    pre.winner.cand,
                    pre.runnerup.cand,
                );
            },
        }
        tally_votes(&self.tallies)
    }

    pub fn name(&self) -> (s: String)
        ensures
            self.p.rank_top_n is None ==> s@ == "Borda, "@ + super::results::strategy_word(
                self.p.strat,
            ),
            self.p.rank_top_n matches Some(n) ==> s@ == "Borda, "@
                + super::results::strategy_word(self.p.strat) + " "@ + crate::tables::dec_rep(
                n as nat,
            ),
    {
        let mut base = String::from_str("Borda, ");
        match self.p.strat {
            Strategy::Honest => base.append("Honest"),
            Strategy::Strategic => base.append("Strategic"),
        }
        match self.p.rank_top_n {
            Some(n) => {
                let mut s = base;
                s.append(" ");
                let num = usize_to_string(n);
                s.append(num.as_str());
                s
            },
            None => base,
        }
    }

    pub fn colname(&self) -> (s: String)
        ensures
            self.p.rank_top_n is None ==> s@ == "Borda_"@ + super::results::strategy_letter(
                self.p.strat,
            ),
            self.p.rank_top_n matches Some(n) ==> s@ == "Borda_"@
                + super::results::strategy_letter(self.p.strat) + "_"@ + crate::tables::dec_rep(
                n as nat,
            ),
    {
        let mut base = String::from_str("Borda_");
        match self.p.strat {
            Strategy::Honest => base.append("h"),
            Strategy::Strategic => base.append("s"),
        }
        match self.p.rank_top_n {
            Some(n) => {
                let mut s = base;
                s.append("_");
                let num = usize_to_string(n);
                s.append(num.as_str());
                s
            },
            None => base,
        }
    }

    pub fn strat(&self) -> (s: Strategy)
        ensures
            s == Strategy::Honest,
    {
        // the strategic variant still reports as honest, so the
        // orchestrator does not feed its outcome to later methods
        Strategy::Honest
    }
}

/// Sum the honest positional points of every ballot.
fn borda_honest_tallies(sim: &Sim, top_n: usize) -> (tallies: Tallies)
    requires
        sim.wf(),
        sim.ranks_ok(),
        1 <= top_n <= sim.ncand,
    ensures
        tallies@.len() == sim.ncand,
        forall|c: usize|
            c < sim.ncand ==> #[trigger] tallies@[c as int] == borda_cnt(
                sim.ranks@,
                sim.ncit as int,
                c,
                top_n as int,
            ),
{
    let ncand = sim.ncand;
    let ncit = sim.ncit;
    let mut tallies: Tallies = filled(ncand, 0i64);
    let mut v: usize = 0;
    while v < ncit
        invariant
            sim.wf(),
            sim.ranks_ok(),
            sim.ncand == ncand,
            sim.ncit == ncit,
            1 <= top_n <= ncand,
            v <= ncit,
            tallies@.len() == ncand,
            forall|c: usize|
                c < ncand ==> #[trigger] tallies@[c as int] == borda_cnt(
                    sim.ranks@,
                    v as int,
                    c,
                    top_n as int,
                ),
        decreases ncit - v,
    {
        let ghost row = sim.ranks@[v as int]@;
        proof {
            lemma_row_distinct(sim, v as int);
            assert forall|c: usize| pos_in(row, c, 0) >= 0 by {
                lemma_pos_in_nonneg(row, c, 0);
            }
        }
        let mut k: usize = 0;
        while k < top_n
            invariant
                sim.wf(),
                sim.ranks_ok(),
                sim.ncand == ncand,
                sim.ncit == ncit,
                1 <= top_n <= ncand,
                v < ncit,
                k <= top_n,
                row == sim.ranks@[v as int]@,
                forall|k1: int, k2: int| 0 <= k1 < k2 < row.len() ==> row[k1] != row[k2],
                tallies@.len() == ncand,
                forall|c: usize|
                    c < ncand ==> #[trigger] tallies@[c as int] == borda_cnt(
                        sim.ranks@,
                        v as int,
                        c,
                        top_n as int,
                    ) + partial_points(row, c, k as int, top_n as int),
            decreases top_n - k,
        {
            let cand = sim.ranks[v][k];
            proof {
                lemma_pos_in_from(row, cand, 0, k as int);
                assert forall|c: usize| c < ncand && c != cand implies partial_points(
                    row,
                    c,
                    k as int + 1,
                    top_n as int,
                ) == partial_points(row, c, k as int, top_n as int) by {
                    if pos_in(row, c, 0) == k {
                        lemma_pos_in_hits(row, c, 0);
                    }
                }
                lemma_borda_cnt_bounds(sim.ranks@, v as int, cand, top_n as int);
                assert((v as int) * (top_n as int) <= (crate::MAX_VOTERS as int) * (
                crate::MAX_CANDIDATES as int)) by (nonlinear_arith)
                    requires
                        0 <= v < ncit <= crate::MAX_VOTERS,
                        0 < top_n <= ncand <= crate::MAX_CANDIDATES,
                ;
            }
            let t = tallies[cand];
            tallies.set(cand, t + (top_n - k) as i64);
            k += 1;
        }
        proof {
            assert forall|c: usize| c < ncand implies partial_points(
                row,
                c,
                top_n as int,
                top_n as int,
            ) == borda_points(top_n as int, pos_in(row, c, 0)) by {
                lemma_pos_in_nonneg(row, c, 0);
            }
        }
        v += 1;
    }
    tallies
}

/// Sum the strategic points of every ballot.
fn borda_strategic_tallies(sim: &Sim, top_n: usize, pw: usize, pru: usize) -> (tallies: Tallies)
    requires
        sim.wf(),
        sim.ranks_ok(),
        1 <= top_n <= sim.ncand,
        pw < sim.ncand,
        pru < sim.ncand,
    ensures
        tallies@.len() == sim.ncand,
        forall|c: usize|
            c < sim.ncand ==> #[trigger] tallies@[c as int] == borda_strat_cnt(
                sim.ranks@,
                sim.scores@,
                sim.ncit as int,
                c,
                top_n as int,
                pw,
                pru,
            ),
{
    let ncand = sim.ncand;
    let ncit = sim.ncit;
    let mut tallies: Tallies = filled(ncand, 0i64);
    let mut v: usize = 0;
    while v < ncit
        invariant
            sim.wf(),
            sim.ranks_ok(),
            sim.ncand == ncand,
            sim.ncit == ncit,
            1 <= top_n <= ncand,
            pw < ncand,
            pru < ncand,
            v <= ncit,
            tallies@.len() == ncand,
            forall|c: usize|
                c < ncand ==> #[trigger] tallies@[c as int] == borda_strat_cnt(
                    sim.ranks@,
                    sim.scores@,
                    v as int,
                    c,
                    top_n as int,
                    pw,
                    pru,
                ),
        decreases ncit - v,
    {
        let ghost row = sim.ranks@[v as int]@;
        let ghost srow = sim.scores@[v as int]@;
        proof {
            lemma_row_distinct(sim, v as int);
        }
        let friend: usize;
        let enemy: usize;
        if sim.scores[v][pw] >= sim.scores[v][pru] {
            friend = pw;
            enemy = pru;
        } else {
            friend = pru;
            enemy = pw;
        }
        proof {
            assert forall|c: usize| pos_in(row, c, 0) >= 0 by {
                lemma_pos_in_nonneg(row, c, 0);
            }
        }
        let mut shift: i64 = -2;
        let mut k: usize = 0;
        while k < ncand
            invariant
                sim.wf(),
                sim.ranks_ok(),
                sim.ncand == ncand,
                sim.ncit == ncit,
                1 <= top_n <= ncand,
                v < ncit,
                k <= ncand,
                friend < ncand,
                enemy < ncand,
                friend == friend_of(srow, pw, pru),
                enemy == enemy_of(srow, pw, pru),
                row == sim.ranks@[v as int]@,
                srow == sim.scores@[v as int]@,
                forall|k1: int, k2: int| 0 <= k1 < k2 < row.len() ==> row[k1] != row[k2],
                shift == -2 + (if pos_in(row, friend, 0) < k {
                    1int
                } else {
                    0int
                }) + (if enemy != friend && pos_in(row, enemy, 0) < k {
                    1int
                } else {
                    0int
                }),
                tallies@.len() == ncand,
                forall|c: usize|
                    c < ncand ==> #[trigger] tallies@[c as int] == borda_strat_cnt(
                        sim.ranks@,
                        sim.scores@,
                        v as int,
                        c,
                        top_n as int,
                        pw,
                        pru,
                    ) + strat_partial_points(row, c, k as int, top_n as int, friend, enemy),
            decreases ncand - k,
        {
            let cand = sim.ranks[v][k];
            proof {
                lemma_pos_in_from(row, cand, 0, k as int);
                assert forall|c: usize| c < ncand && c != cand implies strat_partial_points(
                    row,
                    c,
                    k as int + 1,
                    top_n as int,
                    friend,
                    enemy,
                ) == strat_partial_points(row, c, k as int, top_n as int, friend, enemy) by {
                    if pos_in(row, c, 0) == k {
                        lemma_pos_in_hits(row, c, 0);
                    }
                }
                if pos_in(row, friend, 0) == k as int {
                    lemma_pos_in_hits(row, friend, 0);
                }
                if pos_in(row, enemy, 0) == k as int {
                    lemma_pos_in_hits(row, enemy, 0);
                }
                lemma_borda_strat_cnt_bounds(
                    sim.ranks@,
                    sim.scores@,
                    v as int,
                    cand,
                    top_n as int,
                    pw,
                    pru,
                );
                assert((v as int) * (top_n as int) <= (crate::MAX_VOTERS as int) * (
                crate::MAX_CANDIDATES as int)) by (nonlinear_arith)
                    requires
                        0 <= v < ncit <= crate::MAX_VOTERS,
                        0 < top_n <= ncand <= crate::MAX_CANDIDATES,
                ;
            }
            if cand == friend {
                let t = tallies[cand];
                tallies.set(cand, t + (top_n as i64 - 1));
                shift = shift + 1;
            } else if cand == enemy {
                shift = shift + 1;
            } else {
                let pts: i64 = top_n as i64 - k as i64 + shift;
                if pts > 0 {
                    let t = tallies[cand];
                    tallies.set(cand, t + pts);
                }
            }
            k += 1;
        }
        proof {
            assert forall|c: usize| c < ncand implies strat_partial_points(
                row,
                c,
                ncand as int,
                top_n as int,
                friend,
                enemy,
            ) == borda_strat_points(row, c, top_n as int, friend, enemy) by {
                assert(row.contains(c));
                let k0 = choose|k0: int| 0 <= k0 < row.len() && row[k0] == c;
                lemma_pos_in_exists(row, c, 0);
            }
        }
        v += 1;
    }
    tallies
}

} // verus!
