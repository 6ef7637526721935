//! Reweighted range voting (RRV), a multi-winner method.
//!
//! Every voter fills an honest range ballot once. Winners are chosen
//! one at a time: each round, a voter's ballot is weighted by
//! `k / (k + S / (nranks - 1))` where `S` is what that ballot already
//! gave the elected winners, and the highest weighted score wins the
//! round. `k` is an exact fraction; weights are held in fixed-point
//! units of [`crate::RRV_SCALE`], rounded down.

use super::rangevoting::{fill_range_ballot, range_grade};
use super::results::{ElectResult, Strategy, WinnerAndRunnerup};
use crate::sim::Sim;
use crate::tables::{filled, filled_matrix};
use crate::{MAX_K, MAX_RANKS, RRV_SCALE};
use vstd::arithmetic::div_mod::{lemma_div_pos_is_pos, lemma_multiply_divide_le};
use vstd::prelude::*;

verus! {

/// What ballot `i` already gave the first `r` winners.
pub open spec fn rrv_sat(
    scores: Seq<Vec<i64>>,
    winners: Seq<ElectResult>,
    r: int,
    i: int,
    nranks: int,
) -> int
    decreases r,
{
    if r <= 0 {
        0
    } else {
        rrv_sat(scores, winners, r - 1, i, nranks) + range_grade(
            scores[i]@,
            winners[r - 1].cand as int,
            nranks,
        )
    }
}

/// Ballot `i`'s weight in the round after the first `r` winners, in
/// fixed-point units of [`crate::RRV_SCALE`], rounded down:
/// `SCALE * k / (k + S / (nranks - 1))` with `k = kn / kd`.
pub open spec fn rrv_weight(
    scores: Seq<Vec<i64>>,
    winners: Seq<ElectResult>,
    r: int,
    i: int,
    nranks: int,
    kn: int,
    kd: int,
) -> int {
    (RRV_SCALE * kn * (nranks - 1)) / (kn * (nranks - 1) + kd * rrv_sat(
        scores,
        winners,
        r,
        i,
        nranks,
    ))
}

/// Candidate `j`'s weighted score over the first `n` ballots in the
/// round after the first `r` winners.
pub open spec fn rrv_tally(
    scores: Seq<Vec<i64>>,
    winners: Seq<ElectResult>,
    r: int,
    n: int,
    j: int,
    nranks: int,
    kn: int,
    kd: int,
) -> int
    decreases n,
{
    if n <= 0 {
        0
    } else {
        rrv_tally(scores, winners, r, n - 1, j, nranks, kn, kd) + rrv_weight(
            scores,
            winners,
            r,
            n - 1,
            nranks,
            kn,
            kd,
        ) * range_grade(scores[n - 1]@, j, nranks)
    }
}

/// Candidate `j` is among the first `r` winners.
pub open spec fn among(winners: Seq<ElectResult>, r: int, j: int) -> bool {
    exists|k: int| 0 <= k < r && winners[k].cand == j
}

pub proof fn lemma_rrv_sat_prefix(
    scores: Seq<Vec<i64>>,
    w1: Seq<ElectResult>,
    w2: Seq<ElectResult>,
    r: int,
    i: int,
    nranks: int,
)
    requires
        0 <= r <= w1.len(),
        r <= w2.len(),
        w1.subrange(0, r) == w2.subrange(0, r),
    ensures
        rrv_sat(scores, w1, r, i, nranks) == rrv_sat(scores, w2, r, i, nranks),
    decreases r,
{
    broadcast use vstd::seq::group_seq_axioms;

    if r > 0 {
        assert(w1.subrange(0, r - 1) =~= w2.subrange(0, r - 1)) by {
            assert(forall|k: int|
                0 <= k < r - 1 ==> w1.subrange(0, r - 1)[k] == w1.subrange(0, r)[k]
                    && w2.subrange(0, r - 1)[k] == w2.subrange(0, r)[k]);
        }
        lemma_rrv_sat_prefix(scores, w1, w2, r - 1, i, nranks);
        vstd::seq::axiom_seq_subrange_index::<ElectResult>(w1, 0, r, r - 1);
        vstd::seq::axiom_seq_subrange_index::<ElectResult>(w2, 0, r, r - 1);
        assert(w1.subrange(0, r)[r - 1] == w2.subrange(0, r)[r - 1]);
        assert(w1[r - 1] == w2[r - 1]);
        assert(rrv_sat(scores, w1, r, i, nranks) == rrv_sat(scores, w1, r - 1, i, nranks)
            + range_grade(scores[i]@, w1[r - 1].cand as int, nranks));
        assert(rrv_sat(scores, w2, r, i, nranks) == rrv_sat(scores, w2, r - 1, i, nranks)
            + range_grade(scores[i]@, w2[r - 1].cand as int, nranks));
    }
}

pub proof fn lemma_rrv_tally_prefix(
    scores: Seq<Vec<i64>>,
    w1: Seq<ElectResult>,
    w2: Seq<ElectResult>,
    r: int,
    n: int,
    j: int,
    nranks: int,
    kn: int,
    kd: int,
)
    requires
        0 <= r <= w1.len(),
        r <= w2.len(),
        w1.subrange(0, r) == w2.subrange(0, r),
    ensures
        rrv_tally(scores, w1, r, n, j, nranks, kn, kd) == rrv_tally(
            scores,
            w2,
            r,
            n,
            j,
            nranks,
            kn,
            kd,
        ),
    decreases n,
{
    broadcast use vstd::seq::group_seq_axioms;

    if n > 0 {
        lemma_rrv_tally_prefix(scores, w1, w2, r, n - 1, j, nranks, kn, kd);
        lemma_rrv_sat_prefix(scores, w1, w2, r, n - 1, nranks);
    }
}

#[derive(Debug, Clone, Copy, PartialEq, Eq, Structural)]
pub struct RRV {
    pub strat: Strategy,
    /// Number of grades on the range ballots.
    pub ranks: i64,
    /// The deweighting constant as an exact fraction `k_num / k_den`.
    /// `k = 1` favors large factions; smaller `k` spreads winners.
    pub k_num: i64,
    pub k_den: i64,
}

pub struct RRVSim {
    pub p: RRV,
    /// The filled range ballots, one row per voter.
    pub ballots: Vec<Vec<i64>>,
}

impl RRV {
    pub fn new_sim(&self, sim: &Sim) -> (m: RRVSim)
        requires
            sim.wf(),
        ensures
            m.p == *self,
    {
        RRVSim { p: *self, ballots: filled_matrix(sim.ncit, sim.ncand, 0i64) }
    }
}

impl RRVSim {
    /// Elect `nwinners` winners round by round. Afterwards the ballots
    /// hold every voter's honest grades, and each winner in turn holds
    /// a weighted score that no candidate still unelected in that
    /// round exceeds.
    pub fn multi_elect(
        &mut self,
        sim: &Sim,
        _honest_rslt: Option<WinnerAndRunnerup>,
        nwinners: usize,
    ) -> (winners: Vec<ElectResult>)
        requires
            sim.wf(),
            1 <= nwinners <= sim.ncand,
            2 <= old(self).p.ranks <= MAX_RANKS,
            1 <= old(self).p.k_num <= MAX_K,
            1 <= old(self).p.k_den <= MAX_K,
        ensures
            final(self).p == old(self).p,
            final(self).ballots@.len() == sim.ncit,
            forall|i: int|
                0 <= i < sim.ncit ==> (#[trigger] final(self).ballots@[i])@.len() == sim.ncand,
            forall|i: int, j: int|
                0 <= i < sim.ncit && 0 <= j < sim.ncand ==> #[trigger] final(self).ballots@[i]@[j]
                    == range_grade(sim.scores@[i]@, j, old(self).p.ranks as int),
            winners@.len() == nwinners,
            forall|r: int| 0 <= r < nwinners ==> (#[trigger] winners@[r]).cand < sim.ncand,
            forall|r1: int, r2: int|
                0 <= r1 < r2 < nwinners ==> winners@[r1].cand != winners@[r2].cand,
            forall|r: int|
                0 <= r < nwinners ==> (#[trigger] winners@[r]).score == rrv_tally(
                    sim.scores@,
                    winners@,
                    r,
                    sim.ncit as int,
                    winners@[r].cand as int,
                    old(self).p.ranks as int,
                    old(self).p.k_num as int,
                    old(self).p.k_den as int,
                ),
            forall|r: int, j: int|
                0 <= r < nwinners && 0 <= j < sim.ncand && !among(winners@, r + 1, j)
                    ==> #[trigger] rrv_tally(
                    sim.scores@,
                    winners@,
                    r,
                    sim.ncit as int,
                    j,
                    old(self).p.ranks as int,
                    old(self).p.k_num as int,
                    old(self).p.k_den as int,
                ) <= winners@[r].score,
    {
        let ncand = sim.ncand;
        let ncit = sim.ncit;
        let nranks = self.p.ranks;
        let kn = self.p.k_num;
        let kd = self.p.k_den;
        // fill the ballots once
        let mut ballots: Vec<Vec<i64>> = Vec::new();
        let mut i: usize = 0;
        while i < ncit
            invariant
                sim.wf(),
                sim.ncand == ncand,
                sim.ncit == ncit,
                2 <= nranks <= MAX_RANKS,
                i <= ncit,
                ballots@.len() == i,
                forall|i2: int| 0 <= i2 < i ==> (#[trigger] ballots@[i2])@.len() == ncand,
                forall|i2: int, j: int|
                    0 <= i2 < i && 0 <= j < ncand ==> #[trigger] ballots@[i2]@[j] == range_grade(
                        sim.scores@[i2]@,
                        j,
                        nranks as int,
                    ),
                forall|i2: int, j: int|
                    0 <= i2 < i && 0 <= j < ncand ==> 0 <= #[trigger] ballots@[i2]@[j] < nranks,
            decreases ncit - i,
        {
            let mut ballot: Vec<i64> = filled(ncand, 0i64);
            fill_range_ballot(&sim.scores[i], nranks, &mut ballot);
            ballots.push(ballot);
            i += 1;
        }
        self.ballots = ballots;
        // elect round by round
        let mut winners: Vec<ElectResult> = Vec::new();
        let mut elected: Vec<bool> = filled(ncand, false);
        while winners.len() < nwinners
            invariant
                sim.wf(),
                sim.ncand == ncand,
                sim.ncit == ncit,
                2 <= nranks <= MAX_RANKS,
                1 <= kn <= MAX_K,
                1 <= kd <= MAX_K,
                1 <= nwinners <= ncand,
                self.p.ranks == nranks,
                self.p.k_num == kn,
                self.p.k_den == kd,
                self.ballots@.len() == ncit,
                forall|i2: int| 0 <= i2 < ncit ==> (#[trigger] self.ballots@[i2])@.len() == ncand,
                forall|i2: int, j: int|
                    0 <= i2 < ncit && 0 <= j < ncand ==> #[trigger] self.ballots@[i2]@[j]
                        == range_grade(sim.scores@[i2]@, j, nranks as int),
                forall|i2: int, j: int|
                    0 <= i2 < ncit && 0 <= j < ncand ==> 0 <= #[trigger] self.ballots@[i2]@[j]
                        < nranks,
                winners@.len() <= nwinners,
                elected@.len() == ncand,
                forall|r: int| 0 <= r < winners@.len() ==> (#[trigger] winners@[r]).cand < ncand,
                forall|j: int|
                    0 <= j < ncand ==> (#[trigger] elected@[j] <==> among(
                        winners@,
                        winners@.len() as int,
                        j,
                    )),
                forall|r1: int, r2: int|
                    0 <= r1 < r2 < winners@.len() ==> winners@[r1].cand != winners@[r2].cand,
                forall|r: int|
                    0 <= r < winners@.len() ==> (#[trigger] winners@[r]).score == rrv_tally(
                        sim.scores@,
                        winners@,
                        r,
                        ncit as int,
                        winners@[r].cand as int,
                        nranks as int,
                        kn as int,
                        kd as int,
                    ),
                forall|r: int, j: int|
                    0 <= r < winners@.len() && 0 <= j < ncand && !among(winners@, r + 1, j)
                        ==> #[trigger] rrv_tally(
                        sim.scores@,
                        winners@,
                        r,
                        ncit as int,
                        j,
                        nranks as int,
                        kn as int,
                        kd as int,
                    ) <= winners@[r].score,
            decreases nwinners - winners.len(),
        {
            let ghost r = winners@.len() as int;
            let wtd = self.round_tallies(sim, &winners, Ghost(r));
            // pick the unelected candidate with the top weighted score
            let mut best: usize = 0;
            let mut found = false;
            let mut j: usize = 0;
            while j < ncand
                invariant
                    wtd@.len() == ncand,
                    elected@.len() == ncand,
                    j <= ncand,
                    found ==> best < j <= ncand && !elected@[best as int],
                    found ==> forall|j2: int|
                        0 <= j2 < j && !elected@[j2] ==> wtd@[j2] <= wtd@[best as int],
                    !found ==> forall|j2: int| 0 <= j2 < j ==> elected@[j2],
                decreases ncand - j,
            {
                if !elected[j] {
                    if !found {
                        best = j;
                        found = true;
                    } else if wtd[j] > wtd[best] {
                        best = j;
                    }
                }
                j += 1;
            }
            proof {
                if !found {
                    assert forall|r2: int| 0 <= r2 < winners@.len() implies (#[trigger] winners@[
                    r2]).cand < ncand && elected@[winners@[r2].cand as int] by {
                        assert(among(winners@, winners@.len() as int, winners@[r2].cand as int));
                    }
                    lemma_all_elected_bound(winners@, elected@, ncand as int);
                    assert(false);
                }
            }
            let score = wtd[best];
            let ghost old_winners = winners@;
            winners.push(ElectResult { cand: best, score });
            elected.set(best, true);
            proof {
                broadcast use vstd::seq::group_seq_axioms;

                assert forall|k: int| 0 <= k < winners@.len() - 1 implies old_winners[k]
                    == winners@[k] by {}
                assert forall|rr: int|
                    0 <= rr <= r implies old_winners.subrange(0, rr) =~= winners@.subrange(
                    0,
                    rr,
                ) by {
                    assert(forall|k: int|
                        0 <= k < rr ==> old_winners.subrange(0, rr)[k] == old_winners[k]
                            && winners@.subrange(0, rr)[k] == winners@[k]);
                }
                assert forall|rr: int, j2: int|
                    0 <= rr <= r && 0 <= j2 < ncand implies rrv_tally(
                    sim.scores@,
                    winners@,
                    rr,
                    ncit as int,
                    j2,
                    nranks as int,
                    kn as int,
                    kd as int,
                ) == rrv_tally(
                    sim.scores@,
                    old_winners,
                    rr,
                    ncit as int,
                    j2,
                    nranks as int,
                    kn as int,
                    kd as int,
                ) by {
                    lemma_rrv_tally_prefix(
                        sim.scores@,
                        old_winners,
                        winners@,
                        rr,
                        ncit as int,
                        j2,
                        nranks as int,
                        kn as int,
                        kd as int,
                    );
                }
                assert forall|j2: int|
                    0 <= j2 < ncand implies (#[trigger] elected@[j2] <==> among(
                    winners@,
                    winners@.len() as int,
                    j2,
                )) by {
                    if j2 == best {
                        assert(winners@[winners@.len() - 1].cand == best);
                    } else {
                        if among(old_winners, old_winners.len() as int, j2) {
                            let k = choose|k: int|
                                0 <= k < old_winners.len() && old_winners[k].cand == j2;
                            assert(winners@[k].cand == j2);
                        } else if among(winners@, winners@.len() as int, j2) {
                            let k = choose|k: int|
                                0 <= k < winners@.len() && winners@[k].cand == j2;
                            assert(k < winners@.len() - 1 ==> old_winners[k].cand == j2);
                        }
                    }
                }
                assert forall|j2: int|
                    0 <= j2 < ncand && !among(winners@, r + 1, j2) implies rrv_tally(
                    sim.scores@,
                    winners@,
                    r,
                    ncit as int,
                    j2,
                    nranks as int,
                    kn as int,
                    kd as int,
                ) <= winners@[r].score by {
                    assert(!elected@[j2] || j2 == best);
                    if j2 == best {
                        assert(winners@[r].cand == best);
                        assert(among(winners@, r + 1, j2));
                    }
                }
                assert forall|rr: int, j2: int|
                    0 <= rr < r && 0 <= j2 < ncand && !among(winners@, rr + 1, j2)
                        implies #[trigger] rrv_tally(
                    sim.scores@,
                    winners@,
                    rr,
                    ncit as int,
                    j2,
                    nranks as int,
                    kn as int,
                    kd as int,
                ) <= winners@[rr].score by {
                    if among(old_winners, rr + 1, j2) {
                        let k = choose|k: int|
                            0 <= k < rr + 1 && old_winners[k].cand == j2;
                        assert(winners@[k].cand == j2);
                        assert(among(winners@, rr + 1, j2));
                    }
                    assert(!among(old_winners, rr + 1, j2));
                    assert(rrv_tally(
                        sim.scores@,
                        old_winners,
                        rr,
                        ncit as int,
                        j2,
                        nranks as int,
                        kn as int,
                        kd as int,
                    ) <= old_winners[rr].score);
                }
            }
        }
        winners
    }

    /// This round's weighted score of every candidate.
    fn round_tallies(
        &self,
        sim: &Sim,
        winners: &Vec<ElectResult>,
        Ghost(r): Ghost<int>,
    ) -> (wtd: Vec<i64>)
        requires
            sim.wf(),
            2 <= self.p.ranks <= MAX_RANKS,
            1 <= self.p.k_num <= MAX_K,
            1 <= self.p.k_den <= MAX_K,
            r == winners@.len(),
            winners@.len() <= sim.ncand,
            self.ballots@.len() == sim.ncit,
            forall|i: int| 0 <= i < sim.ncit ==> (#[trigger] self.ballots@[i])@.len() == sim.ncand,
            forall|i: int, j: int|
                0 <= i < sim.ncit && 0 <= j < sim.ncand ==> #[trigger] self.ballots@[i]@[j]
                    == range_grade(sim.scores@[i]@, j, self.p.ranks as int),
            forall|i: int, j: int|
                0 <= i < sim.ncit && 0 <= j < sim.ncand ==> 0 <= #[trigger] self.ballots@[i]@[j]
                    < self.p.ranks,
            forall|k: int| 0 <= k < r ==> (#[trigger] winners@[k]).cand < sim.ncand,
        ensures
            wtd@.len() == sim.ncand,
            forall|j: int|
                0 <= j < sim.ncand ==> #[trigger] wtd@[j] == rrv_tally(
                    sim.scores@,
                    winners@,
                    r,
                    sim.ncit as int,
                    j,
                    self.p.ranks as int,
                    self.p.k_num as int,
                    self.p.k_den as int,
                ),
    {
        let ncand = sim.ncand;
        let ncit = sim.ncit;
        let nranks = self.p.ranks;
        let kn = self.p.k_num;
        let kd = self.p.k_den;
        let mut wtd: Vec<i64> = filled(ncand, 0i64);
        let mut i: usize = 0;
        while i < ncit
            invariant
                sim.wf(),
                sim.ncand == ncand,
                sim.ncit == ncit,
                2 <= nranks <= MAX_RANKS,
                1 <= kn <= MAX_K,
                1 <= kd <= MAX_K,
                nranks == self.p.ranks,
                kn == self.p.k_num,
                kd == self.p.k_den,
                r == winners@.len(),
                winners@.len() <= ncand,
                self.ballots@.len() == ncit,
                forall|i2: int| 0 <= i2 < ncit ==> (#[trigger] self.ballots@[i2])@.len() == ncand,
                forall|i2: int, j: int|
                    0 <= i2 < ncit && 0 <= j < ncand ==> #[trigger] self.ballots@[i2]@[j]
                        == range_grade(sim.scores@[i2]@, j, nranks as int),
                forall|i2: int, j: int|
                    0 <= i2 < ncit && 0 <= j < ncand ==> 0 <= #[trigger] self.ballots@[i2]@[j]
                        < nranks,
                forall|k: int| 0 <= k < r ==> (#[trigger] winners@[k]).cand < ncand,
                i <= ncit,
                wtd@.len() == ncand,
                forall|j: int|
                    0 <= j < ncand ==> #[trigger] wtd@[j] == rrv_tally(
                        sim.scores@,
                        winners@,
                        r,
                        i as int,
                        j,
                        nranks as int,
                        kn as int,
                        kd as int,
                    ),
                forall|j: int|
                    0 <= j < ncand ==> 0 <= #[trigger] wtd@[j] <= (i as int) * (RRV_SCALE as int)
                        * (MAX_RANKS as int),
            decreases ncit - i,
        {
            // what this ballot already gave the winners
            let mut sat: i64 = 0;
            let mut k: usize = 0;
            while k < winners.len()
                invariant
                    sim.wf(),
                    sim.ncand == ncand,
                    sim.ncit == ncit,
                    2 <= nranks <= MAX_RANKS,
                    r == winners@.len(),
                    winners@.len() <= ncand,
                    i < ncit,
                    k <= winners@.len(),
                    self.ballots@.len() == ncit,
                    forall|i2: int|
                        0 <= i2 < ncit ==> (#[trigger] self.ballots@[i2])@.len() == ncand,
                    forall|i2: int, j: int|
                        0 <= i2 < ncit && 0 <= j < ncand ==> #[trigger] self.ballots@[i2]@[j]
                            == range_grade(sim.scores@[i2]@, j, nranks as int),
                    forall|i2: int, j: int|
                        0 <= i2 < ncit && 0 <= j < ncand ==> 0 <= #[trigger] self.ballots@[i2]@[j]
                            < nranks,
                    forall|k2: int| 0 <= k2 < r ==> (#[trigger] winners@[k2]).cand < ncand,
                    sat == rrv_sat(sim.scores@, winners@, k as int, i as int, nranks as int),
                    0 <= sat <= (k as int) * (nranks as int),
                decreases winners@.len() - k,
            {
                proof {
                    assert((k as int) * (nranks as int) + nranks <= ((k + 1) as int) * (
                    nranks as int) && ((k + 1) as int) * (nranks as int) <= (ncand as int) * (
                    MAX_RANKS as int)) by (nonlinear_arith)
                        requires
                            0 <= k < winners@.len() <= ncand <= crate::MAX_CANDIDATES,
                            2 <= nranks <= MAX_RANKS,
                    ;
                }
                sat = sat + self.ballots[i][winners[k].cand];
                k += 1;
            }
            // fixed-point weight of this ballot
            proof {
                assert(1 <= (kn as int) * ((nranks - 1) as int) <= (MAX_K as int) * (
                MAX_RANKS as int)) by (nonlinear_arith)
                    requires
                        1 <= kn <= MAX_K,
                        2 <= nranks <= MAX_RANKS,
                ;
                assert(0 <= sat <= (crate::MAX_CANDIDATES as int) * (MAX_RANKS as int)) by (
                nonlinear_arith)
                    requires
                        0 <= sat <= (r as int) * (nranks as int),
                        0 <= r <= crate::MAX_CANDIDATES as int,
                        2 <= nranks <= MAX_RANKS,
                ;
                assert(0 <= (kd as int) * (sat as int) <= (MAX_K as int) * ((
                crate::MAX_CANDIDATES as int) * (MAX_RANKS as int))) by (nonlinear_arith)
                    requires
                        1 <= kd <= MAX_K,
                        0 <= sat <= (crate::MAX_CANDIDATES as int) * (MAX_RANKS as int),
                ;
            }
            let kr: i64 = kn * (nranks - 1);
            let den: i64 = kr + kd * sat;
            proof {
                assert(0 <= (RRV_SCALE as int) * (kn as int) * ((nranks - 1) as int) <= (
                RRV_SCALE as int) * (MAX_K as int) * (MAX_RANKS as int)) by (nonlinear_arith)
                    requires
                        1 <= kn <= MAX_K,
                        2 <= nranks <= MAX_RANKS,
                ;
            }
            let num: i64 = RRV_SCALE * kr;
            let wt: i64 = num / den;
            proof {
                lemma_div_pos_is_pos(num as int, den as int);
                assert(num as int <= (den as int) * (RRV_SCALE as int)) by (nonlinear_arith)
                    requires
                        num as int == RRV_SCALE * (kr as int),
                        den as int >= kr as int,
                        kr >= 1,
                        den >= 1,
                ;
                lemma_multiply_divide_le(num as int, den as int, RRV_SCALE as int);
                assert((RRV_SCALE as int) * (kn as int) * ((nranks - 1) as int) == (RRV_SCALE as int)
                    * ((kn as int) * ((nranks - 1) as int))) by (nonlinear_arith);
            }
            // add the weighted ballot into the tallies
            let mut j: usize = 0;
            while j < ncand
                invariant
                    sim.wf(),
                    sim.ncand == ncand,
                    sim.ncit == ncit,
                    2 <= nranks <= MAX_RANKS,
                    1 <= kn <= MAX_K,
                    1 <= kd <= MAX_K,
                    nranks == self.p.ranks,
                    kn == self.p.k_num,
                    kd == self.p.k_den,
                    r == winners@.len(),
                    winners@.len() <= ncand,
                    i < ncit,
                    j <= ncand,
                    self.ballots@.len() == ncit,
                    forall|i2: int|
                        0 <= i2 < ncit ==> (#[trigger] self.ballots@[i2])@.len() == ncand,
                    forall|i2: int, j2: int|
                        0 <= i2 < ncit && 0 <= j2 < ncand ==> #[trigger] self.ballots@[i2]@[j2]
                            == range_grade(sim.scores@[i2]@, j2, nranks as int),
                    forall|i2: int, j2: int|
                        0 <= i2 < ncit && 0 <= j2 < ncand ==> 0 <= #[trigger] self.ballots@[i2]@[j2]
                            < nranks,
                    forall|k2: int| 0 <= k2 < r ==> (#[trigger] winners@[k2]).cand < ncand,
                    0 <= wt <= RRV_SCALE,
                    wt as int == rrv_weight(
                        sim.scores@,
                        winners@,
                        r,
                        i as int,
                        nranks as int,
                        kn as int,
                        kd as int,
                    ),
                    wtd@.len() == ncand,
                    forall|j2: int|
                        j <= j2 < ncand ==> #[trigger] wtd@[j2] == rrv_tally(
                            sim.scores@,
                            winners@,
                            r,
                            i as int,
                            j2,
                            nranks as int,
                            kn as int,
                            kd as int,
                        ) && 0 <= wtd@[j2] <= (i as int) * (RRV_SCALE as int) * (MAX_RANKS as int),
                    forall|j2: int|
                        0 <= j2 < j ==> #[trigger] wtd@[j2] == rrv_tally(
                            sim.scores@,
                            winners@,
                            r,
                            i as int + 1,
                            j2,
                            nranks as int,
                            kn as int,
                            kd as int,
                        ) && 0 <= wtd@[j2] <= ((i + 1) as int) * (RRV_SCALE as int) * (
                        MAX_RANKS as int),
                decreases ncand - j,
            {
                proof {
                    assert(0 <= (wt as int) * (self.ballots@[i as int]@[j as int] as int) <= (
                    RRV_SCALE as int) * (MAX_RANKS as int)) by (nonlinear_arith)
                        requires
                            0 <= wt <= RRV_SCALE,
                            0 <= self.ballots@[i as int]@[j as int] < nranks <= MAX_RANKS,
                    ;
                    assert((i as int) * (RRV_SCALE as int) * (MAX_RANKS as int) + (RRV_SCALE as int)
                        * (MAX_RANKS as int) == ((i + 1) as int) * (RRV_SCALE as int) * (
                    MAX_RANKS as int)) by (nonlinear_arith);
                    assert(((i + 1) as int) * (RRV_SCALE as int) * (MAX_RANKS as int) <= (
                    crate::MAX_VOTERS as int) * (RRV_SCALE as int) * (MAX_RANKS as int)) by (
                    nonlinear_arith)
                        requires
                            0 <= i < crate::MAX_VOTERS,
                    ;
                }
                let t = wtd[j];
                wtd.set(j, t + wt * self.ballots[i][j]);
                j += 1;
            }
            i += 1;
        }
        wtd
    }
}

/// When every candidate id is elected and the winners are distinct,
/// there are at least as many winner rows as candidate ids.
proof fn lemma_all_elected_bound(winners: Seq<ElectResult>, elected: Seq<bool>, ncand: int)
    requires
        elected.len() == ncand,
        0 < ncand,
        forall|j: int| 0 <= j < ncand ==> elected[j],
        forall|j: int|
            0 <= j < ncand ==> (elected[j] <==> exists|k: int|
                0 <= k < winners.len() && winners[k].cand == j),
        forall|r1: int, r2: int|
            0 <= r1 < r2 < winners.len() ==> winners[r1].cand != winners[r2].cand,
        forall|r: int| 0 <= r < winners.len() ==> (#[trigger] winners[r]).cand < ncand,
    ensures
        ncand <= winners.len(),
{
    // each candidate id below ncand appears among the winners, and the
    // winners are distinct, so there are at least ncand of them
    let picks = Seq::new(
        ncand as nat,
        |j: int| choose|k: int| 0 <= k < winners.len() && winners[k].cand == j,
    );
    assert forall|j: int| 0 <= j < ncand implies 0 <= #[trigger] picks[j] < winners.len()
        && winners[picks[j]].cand == j by {
        assert(elected[j]);
        let k = choose|k: int| 0 <= k < winners.len() && winners[k].cand == j;
        assert(winners[k].cand == j);
    }
    lemma_injective_bound(picks, winners, ncand);
}

proof fn lemma_injective_bound(picks: Seq<int>, winners: Seq<ElectResult>, ncand: int)
    requires
        picks.len() == ncand,
        0 < ncand,
        forall|j: int| 0 <= j < ncand ==> 0 <= #[trigger] picks[j] < winners.len(),
        forall|j: int| 0 <= j < ncand ==> winners[#[trigger] picks[j]].cand == j,
    ensures
        ncand <= winners.len(),
{
    // two distinct candidate ids would need distinct winner rows, so
    // there must be at least as many rows as ids; pigeonhole on the
    // first id whose row collides with another
    assert forall|j1: int, j2: int| 0 <= j1 < j2 < ncand implies picks[j1] != picks[j2] by {
        assert(winners[picks[j1]].cand == j1);
        assert(winners[picks[j2]].cand == j2);
    }
    lemma_distinct_in_range(picks, ncand, winners.len() as int);
}

proof fn lemma_distinct_in_range(picks: Seq<int>, n: int, bound: int)
    requires
        0 <= bound,
        picks.len() == n,
        forall|j: int| 0 <= j < n ==> 0 <= #[trigger] picks[j] < bound,
        forall|j1: int, j2: int| 0 <= j1 < j2 < n ==> picks[j1] != picks[j2],
    ensures
        n <= bound,
    decreases n,
{
    if n > 0 {
        assert(0 <= picks[0] < bound);
        // drop the entry equal to bound - 1 if present, shrinking both
        // the list and the range by one
        if exists|j: int| 0 <= j < n && picks[j] == bound - 1 {
            let j0 = choose|j: int| 0 <= j < n && picks[j] == bound - 1;
            let rest = picks.remove(j0);
            assert forall|j: int| 0 <= j < n - 1 implies 0 <= #[trigger] rest[j] < bound - 1 by {
                if j < j0 {
                    assert(rest[j] == picks[j]);
                    assert(picks[j] != picks[j0]);
                } else {
                    assert(rest[j] == picks[j + 1]);
                    assert(picks[j + 1] != picks[j0]);
                }
            }
            assert forall|j1: int, j2: int| 0 <= j1 < j2 < n - 1 implies rest[j1] != rest[j2] by {
                if j2 < j0 {
                } else if j1 < j0 {
                    assert(rest[j1] == picks[j1] && rest[j2] == picks[j2 + 1]);
                } else {
                    assert(rest[j1] == picks[j1 + 1] && rest[j2] == picks[j2 + 1]);
                }
            }
            lemma_distinct_in_range(rest, n - 1, bound - 1);
        } else {
            let rest = picks.remove(n - 1);
            assert forall|j: int| 0 <= j < n - 1 implies 0 <= #[trigger] rest[j] < bound - 1 by {
                assert(rest[j] == picks[j]);
            }
            assert forall|j1: int, j2: int| 0 <= j1 < j2 < n - 1 implies rest[j1] != rest[j2] by {
                assert(rest[j1] == picks[j1] && rest[j2] == picks[j2]);
            }
            lemma_distinct_in_range(rest, n - 1, bound - 1);
        }
    }
}

} // verus!
