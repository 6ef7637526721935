//! Utilities shared by the Condorcet-flavored methods and the Smith set.

use crate::sim::Sim;
use crate::sorting::count_true;
use crate::tables::filled;
use vstd::prelude::*;

verus! {

/// A pair-off for ranked systems: most voters rank `winner` above
/// `loser` (a pairwise tie also counts as a win). `margin` is the
/// winner's votes minus the loser's, never negative.
#[derive(Debug, Clone, Copy, PartialEq, Eq, Structural)]
pub struct CandPair {
    pub winner: usize,
    pub loser: usize,
    pub margin: i64,
}

/// The pair-off of candidates `i < j` by the margin matrix: a
/// non-negative margin means `i` wins the pair (ties go to the lower
/// index), else `j` wins it.
pub open spec fn pair_of(m: Seq<Vec<i64>>, i: int, j: int) -> CandPair {
    if m[i]@[j] >= 0 {
        CandPair { winner: i as usize, loser: j as usize, margin: m[i]@[j] }
    } else {
        CandPair { winner: j as usize, loser: i as usize, margin: (-m[i]@[j]) as i64 }
    }
}

/// The smaller of the two candidates in a pair.
pub open spec fn pair_lo(p: CandPair) -> int {
    if p.winner < p.loser {
        p.winner as int
    } else {
        p.loser as int
    }
}

/// The larger of the two candidates in a pair.
pub open spec fn pair_hi(p: CandPair) -> int {
    if p.winner < p.loser {
        p.loser as int
    } else {
        p.winner as int
    }
}

/// `p` really is the pair-off of the two candidates it names.
pub open spec fn pair_ok(m: Seq<Vec<i64>>, ncand: int, p: CandPair) -> bool {
    &&& 0 <= pair_lo(p) < pair_hi(p) < ncand
    &&& p == pair_of(m, pair_lo(p), pair_hi(p))
}

/// Some entry of `ps` covers the candidate pair `i < j`.
pub open spec fn contains_pair(ps: Seq<CandPair>, i: int, j: int) -> bool {
    exists|k: int| 0 <= k < ps.len() && pair_lo(ps[k]) == i && pair_hi(ps[k]) == j
}

/// `ps` holds the pair-offs of all candidate pairs, in ascending order
/// of (smaller id, larger id). Exactly one sequence satisfies this.
pub open spec fn is_pair_list(m: Seq<Vec<i64>>, ncand: int, ps: Seq<CandPair>) -> bool {
    &&& forall|k: int| 0 <= k < ps.len() ==> pair_ok(m, ncand, #[trigger] ps[k])
    &&& forall|k1: int, k2: int|
        0 <= k1 < k2 < ps.len() ==> pair_lo(ps[k1]) < pair_lo(ps[k2]) || (pair_lo(ps[k1])
            == pair_lo(ps[k2]) && pair_hi(ps[k1]) < pair_hi(ps[k2]))
    &&& forall|i: int, j: int| 0 <= i < j < ncand ==> #[trigger] contains_pair(ps, i, j)
}

/// Fill `pairs` with every pair-off, in ascending order of
/// (smaller id, larger id).
pub fn find_candidate_pairoffs(pairs: &mut Vec<CandPair>, sim: &Sim)
    requires
        sim.wf(),
        sim.margins_ok(),
    ensures
        is_pair_list(sim.i_beats_j_by@, sim.ncand as int, final(pairs)@),
        final(pairs)@.len() <= sim.ncand * sim.ncand,
{
    let ncand = sim.ncand;
    let mut out: Vec<CandPair> = Vec::new();
    let mut i: usize = 0;
    while i < ncand
        invariant
            sim.wf(),
            sim.margins_ok(),
            sim.ncand == ncand,
            i <= ncand,
            out@.len() <= (i as int) * (ncand as int),
            forall|k: int| 0 <= k < out@.len() ==> pair_ok(sim.i_beats_j_by@, ncand as int, #[trigger] out@[k]),
            forall|k: int| 0 <= k < out@.len() ==> pair_lo(out@[k]) < i,
            forall|k1: int, k2: int|
                0 <= k1 < k2 < out@.len() ==> pair_lo(out@[k1]) < pair_lo(out@[k2]) || (pair_lo(
                    out@[k1],
                ) == pair_lo(out@[k2]) && pair_hi(out@[k1]) < pair_hi(out@[k2])),
            forall|i2: int, j2: int|
                0 <= i2 < j2 < ncand && i2 < i ==> #[trigger] contains_pair(out@, i2, j2),
        decreases ncand - i,
    {
        let mut j: usize = i + 1;
        while j < ncand
            invariant
                sim.wf(),
                sim.margins_ok(),
                sim.ncand == ncand,
                i < ncand,
                i + 1 <= j <= ncand,
                out@.len() <= (i as int) * (ncand as int) + (j - i - 1),
                forall|k: int|
                    0 <= k < out@.len() ==> pair_ok(
                        sim.i_beats_j_by@,
                        ncand as int,
                        #[trigger] out@[k],
                    ),
                forall|k: int|
                    0 <= k < out@.len() ==> pair_lo(out@[k]) < i || (pair_lo(out@[k]) == i
                        && pair_hi(out@[k]) < j),
                forall|k1: int, k2: int|
                    0 <= k1 < k2 < out@.len() ==> pair_lo(out@[k1]) < pair_lo(out@[k2]) || (
                    pair_lo(out@[k1]) == pair_lo(out@[k2]) && pair_hi(out@[k1]) < pair_hi(
                        out@[k2],
                    )),
                forall|i2: int, j2: int|
                    0 <= i2 < j2 < ncand && (i2 < i || (i2 == i && j2 < j))
                        ==> #[trigger] contains_pair(out@, i2, j2),
            decreases ncand - j,
        {
            proof {
                crate::sim::lemma_pref_cnt_bounds(sim.scores@, sim.ncit as int, i as int, j as int);
                crate::sim::lemma_pref_cnt_bounds(sim.scores@, sim.ncit as int, j as int, i as int);
            }
            let mij = sim.i_beats_j_by[i][j];
            let p = if mij >= 0 {
                CandPair { winner: i, loser: j, margin: mij }
            } else {
                CandPair { winner: j, loser: i, margin: -mij }
            };
            let ghost old_out = out@;
            out.push(p);
            proof {
                assert(pair_lo(p) == i as int && pair_hi(p) == j as int);
                assert(out@[out@.len() - 1] == p);
                assert forall|i2: int, j2: int|
                    0 <= i2 < j2 < ncand && (i2 < i || (i2 == i && j2 < j + 1)) implies #[trigger] contains_pair(
                    out@,
                    i2,
                    j2,
                ) by {
                    if i2 == i && j2 == j {
                        assert(pair_lo(out@[out@.len() - 1]) == i2 && pair_hi(
                            out@[out@.len() - 1],
                        ) == j2);
                    } else {
                        assert(contains_pair(old_out, i2, j2));
                        let k = choose|k: int|
                            0 <= k < old_out.len() && pair_lo(old_out[k]) == i2 && pair_hi(
                                old_out[k],
                            ) == j2;
                        assert(pair_lo(out@[k]) == i2 && pair_hi(out@[k]) == j2);
                    }
                }
            }
            j += 1;
        }
        proof {
            assert((i as int) * (ncand as int) + (ncand - i - 1) <= ((i + 1) as int) * (
            ncand as int)) by (nonlinear_arith)
                requires
                    0 <= i < ncand,
            ;
        }
        i += 1;
    }
    proof {
        assert(out@.len() <= (ncand as int) * (ncand as int)) by (nonlinear_arith)
            requires
                out@.len() <= (ncand as int) * (ncand as int),
        ;
    }
    *pairs = out;
}

/// `c` does not lose any pair locked in so far (by the margin signs),
/// and at least one locked pair involves `c`.
pub open spec fn cand_ok(
    m: Seq<Vec<i64>>,
    agenda: Seq<CandPair>,
    locked: Seq<bool>,
    c: int,
) -> bool {
    &&& exists|k: int|
        0 <= k < agenda.len() && locked[k] && ((#[trigger] agenda[k]).winner as int == c || agenda[
        k].loser as int == c)
    &&& forall|k: int|
        0 <= k < agenda.len() && locked[k] ==> pair_dir_ok(m, #[trigger] agenda[k], c)
}

/// The locked pair `p` does not count as a defeat for `c`.
pub open spec fn pair_dir_ok(m: Seq<Vec<i64>>, p: CandPair, c: int) -> bool {
    let i = pair_lo(p);
    let j = pair_hi(p);
    &&& (c == i ==> m[i]@[j] >= 0)
    &&& (c == j ==> m[i]@[j] <= 0)
}

/// The smallest candidate id that wins all its locked pairs, from `c`
/// up; `-1` when there is none.
pub open spec fn locked_winner_from(
    m: Seq<Vec<i64>>,
    agenda: Seq<CandPair>,
    locked: Seq<bool>,
    ncand: int,
    c: int,
) -> int
    decreases ncand - c,
{
    if c < 0 || c >= ncand {
        -1
    } else if cand_ok(m, agenda, locked, c) {
        c
    } else {
        locked_winner_from(m, agenda, locked, ncand, c + 1)
    }
}

/// Lock or unlock one pair of the agenda.
pub fn lock_in(locked: &mut Vec<bool>, k: usize, set: bool)
    requires
        k < old(locked)@.len(),
    ensures
        final(locked)@ == old(locked)@.update(k as int, set),
{
    locked.set(k, set);
}

/// The first candidate, in index order, who is involved in a locked
/// pair and defeated by none of their locked pairs.
pub fn find_locked_in_winner(locked: &Vec<bool>, pairs: &Vec<CandPair>, sim: &Sim) -> (r: Option<
    usize,
>)
    requires
        sim.wf(),
        locked@.len() == pairs@.len(),
        forall|k: int|
            0 <= k < pairs@.len() ==> pair_ok(sim.i_beats_j_by@, sim.ncand as int, #[trigger] pairs@[k]),
    ensures
        ({
            let lw = locked_winner_from(sim.i_beats_j_by@, pairs@, locked@, sim.ncand as int, 0);
            &&& r is Some <==> lw >= 0
            &&& r is Some ==> r->0 as int == lw && r->0 < sim.ncand
        }),
{
    let ncand = sim.ncand;
    let npairs = pairs.len();
    let mut iwin: usize = 0;
    while iwin < ncand
        invariant
            sim.wf(),
            sim.ncand == ncand,
            locked@.len() == npairs,
            pairs@.len() == npairs,
            forall|k: int|
                0 <= k < npairs ==> pair_ok(sim.i_beats_j_by@, ncand as int, #[trigger] pairs@[k]),
            iwin <= ncand,
            forall|c: int|
                0 <= c < iwin ==> !cand_ok(sim.i_beats_j_by@, pairs@, locked@, c),
            locked_winner_from(sim.i_beats_j_by@, pairs@, locked@, ncand as int, 0)
                == locked_winner_from(sim.i_beats_j_by@, pairs@, locked@, ncand as int, iwin as int),
        decreases ncand - iwin,
    {
        let mut involved = false;
        let mut beaten = false;
        let mut k: usize = 0;
        while k < npairs
            invariant
                sim.wf(),
                sim.ncand == ncand,
                locked@.len() == npairs,
                pairs@.len() == npairs,
                forall|k2: int|
                    0 <= k2 < npairs ==> pair_ok(
                        sim.i_beats_j_by@,
                        ncand as int,
                        #[trigger] pairs@[k2],
                    ),
                iwin < ncand,
                k <= npairs,
                involved <==> exists|k2: int|
                    0 <= k2 < k && locked@[k2] && ((#[trigger] pairs@[k2]).winner as int
                        == iwin as int || pairs@[k2].loser as int == iwin as int),
                beaten <==> exists|k2: int|
                    0 <= k2 < k && locked@[k2] && !pair_dir_ok(
                        sim.i_beats_j_by@,
                        #[trigger] pairs@[k2],
                        iwin as int,
                    ),
            decreases npairs - k,
        {
            if locked[k] {
                let p = pairs[k];
                let lo = if p.winner < p.loser {
                    p.winner
                } else {
                    p.loser
                };
                let hi = if p.winner < p.loser {
                    p.loser
                } else {
                    p.winner
                };
                if p.winner == iwin || p.loser == iwin {
                    involved = true;
                }
                if (iwin == lo && sim.i_beats_j_by[lo][hi] < 0) || (iwin == hi
                    && sim.i_beats_j_by[lo][hi] > 0) {
                    beaten = true;
                }
            }
            k += 1;
        }
        if involved && !beaten {
            proof {
                assert(cand_ok(sim.i_beats_j_by@, pairs@, locked@, iwin as int));
            }
            return Some(iwin);
        }
        proof {
            if involved {
            } else {
                assert(!cand_ok(sim.i_beats_j_by@, pairs@, locked@, iwin as int));
            }
        }
        iwin += 1;
    }
    None
}

/// Number of opponents among `0..n` (skipping `c` itself) against whom
/// candidate `c` does not lose, by the margin matrix `m`.
pub open spec fn nonloss_cnt(m: Seq<Vec<i64>>, c: int, n: int) -> int
    decreases n,
{
    if n <= 0 {
        0
    } else {
        nonloss_cnt(m, c, n - 1) + if n - 1 != c && m[c]@[n - 1] >= 0 {
            1int
        } else {
            0int
        }
    }
}

/// Some candidate with a maximal number of pairwise non-losses. Such a
/// candidate belongs to the Smith set, so it seeds the search for it.
pub fn find_any_condorcet_winner(sim: &Sim) -> (w: usize)
    requires
        sim.wf(),
    ensures
        w < sim.ncand,
        forall|c: int|
            0 <= c < sim.ncand ==> nonloss_cnt(sim.i_beats_j_by@, c, sim.ncand as int)
                <= nonloss_cnt(sim.i_beats_j_by@, w as int, sim.ncand as int),
{
    let ncand = sim.ncand;
    let mut winner: usize = 0;
    let mut max_victories: i64 = -1;
    let mut icand: usize = 0;
    while icand < ncand
        invariant
            sim.wf(),
            sim.ncand == ncand,
            icand <= ncand,
            icand == 0 ==> winner == 0 && max_victories == -1,
            icand > 0 ==> winner < icand && max_victories == nonloss_cnt(
                sim.i_beats_j_by@,
                winner as int,
                ncand as int,
            ),
            forall|c: int|
                0 <= c < icand ==> nonloss_cnt(sim.i_beats_j_by@, c, ncand as int)
                    <= max_victories,
        decreases ncand - icand,
    {
        let mut cand_victories: i64 = 0;
        let mut j: usize = 0;
        while j < ncand
            invariant
                sim.wf(),
                sim.ncand == ncand,
                icand < ncand,
                j <= ncand,
                cand_victories == nonloss_cnt(sim.i_beats_j_by@, icand as int, j as int),
                0 <= cand_victories <= j,
            decreases ncand - j,
        {
            if j != icand && sim.i_beats_j_by[icand][j] >= 0 {
                cand_victories = cand_victories + 1;
            }
            j += 1;
        }
        if cand_victories >= max_victories {
            winner = icand;
            max_victories = cand_victories;
        }
        icand += 1;
    }
    winner
}

/// Mark the members of the Smith set in `sim.in_smith_set`.
///
/// Starts from a non-loss-maximal seed and keeps adding any candidate
/// that avoids defeat against some member, restarting the scan after
/// each addition, until nothing changes: then every unmarked candidate
/// loses outright to every marked one, and at least one candidate is
/// marked.
pub fn mark_smith_candidates(sim: &mut Sim)
    requires
        old(sim).wf(),
    ensures
        final(sim).wf(),
        final(sim).smith_ok(),
        final(sim).ncand == old(sim).ncand,
        final(sim).ncit == old(sim).ncit,
        final(sim).scores == old(sim).scores,
        final(sim).ranks == old(sim).ranks,
        final(sim).i_beats_j_by == old(sim).i_beats_j_by,
        final(sim).utilities == old(sim).utilities,
        final(sim).regrets == old(sim).regrets,
        final(sim).cand_by_regret == old(sim).cand_by_regret,
        final(sim).regret_rank == old(sim).regret_rank,
{
    let ncand = sim.ncand;
    let seed = find_any_condorcet_winner(sim);
    let mut smith: Vec<bool> = filled(ncand, false);
    proof {
        crate::sorting::lemma_count_all_false(smith@, ncand as int);
        crate::sorting::lemma_count_true_update(smith@, seed as int, ncand as int);
    }
    smith.set(seed, true);
    let mut nmarked: usize = 1;
    let mut icand: usize = 0;
    while icand < ncand
        invariant
            sim.wf(),
            sim.ncand == ncand,
            smith@.len() == ncand,
            icand <= ncand,
            seed < ncand,
            smith@[seed as int],
            1 <= nmarked <= ncand,
            nmarked == count_true(smith@, ncand as int),
            forall|i: int, j: int|
                0 <= i < icand && 0 <= j < ncand && #[trigger] smith@[j] && !(#[trigger] smith@[i])
                    ==> sim.i_beats_j_by@[i]@[j] < 0,
        decreases ncand - nmarked, ncand - icand,
    {
        if smith[icand] {
            icand += 1;
        } else {
            let mut joins = false;
            let mut j: usize = 0;
            while j < ncand && !joins
                invariant
                    sim.wf(),
                    sim.ncand == ncand,
                    smith@.len() == ncand,
                    icand < ncand,
                    j <= ncand,
                    !smith@[icand as int],
                    !joins ==> forall|j2: int|
                        0 <= j2 < j && #[trigger] smith@[j2]
                            ==> sim.i_beats_j_by@[icand as int]@[j2] < 0,
                decreases ncand - j, 1int - if joins {
                    1int
                } else {
                    0int
                },
            {
                if j != icand && smith[j] && sim.i_beats_j_by[icand][j] >= 0 {
                    joins = true;
                } else {
                    j += 1;
                }
            }
            if joins {
                proof {
                    crate::sorting::lemma_count_true_update(smith@, icand as int, ncand as int);
                }
                smith.set(icand, true);
                proof {
                    crate::sorting::lemma_count_true_le(smith@, ncand as int);
                }
                nmarked += 1;
                // a new member may rescue candidates already passed
                // over, so the scan starts from the top again
                icand = 0;
            } else {
                icand += 1;
            }
        }
    }
    sim.in_smith_set = smith;
    proof {
        assert(sim.in_smith_set@[seed as int]);
        assert(exists|c: int| 0 <= c < sim.ncand && sim.in_smith_set@[c]);
    }
}

} // verus!
