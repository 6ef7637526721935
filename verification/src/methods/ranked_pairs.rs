//! Ranked pairs (Tideman's method).
//!
//! All pair-offs are sorted by descending margin of victory and locked
//! in one by one, skipping any pair that would leave no candidate
//! undefeated among the locked pairs (a cycle). The winner is the
//! candidate who wins every locked pair they appear in; the runner-up
//! comes from re-running the procedure without the winner's pairs.

use super::condorcet_util::{
    contains_pair, find_candidate_pairoffs, find_locked_in_winner, is_pair_list, lock_in,
    locked_winner_from, pair_hi, pair_lo, pair_ok, CandPair,
};
use super::results::{ElectResult, Strategy, WinnerAndRunnerup};
use crate::sim::Sim;
use crate::sorting::{sorted_ids_desc, sorted_perm};
use crate::tables::filled;
use vstd::prelude::*;
use vstd::string::StringExecFns;

verus! {

/// `agenda[k1]` must be tried before `agenda[k2]`: larger margin
/// first, ties in the order of (smaller id, larger id).
pub open spec fn agenda_before(p1: CandPair, p2: CandPair) -> bool {
    ||| p1.margin > p2.margin
    ||| (p1.margin == p2.margin && (pair_lo(p1) < pair_lo(p2) || (pair_lo(p1) == pair_lo(p2)
        && pair_hi(p1) < pair_hi(p2))))
}

/// `agenda` holds every pair-off exactly once, sorted by
/// [`agenda_before`]. Exactly one sequence satisfies this.
pub open spec fn is_agenda(m: Seq<Vec<i64>>, ncand: int, agenda: Seq<CandPair>) -> bool {
    &&& forall|k: int| 0 <= k < agenda.len() ==> pair_ok(m, ncand, #[trigger] agenda[k])
    &&& forall|k1: int, k2: int|
        0 <= k1 < k2 < agenda.len() ==> agenda_before(agenda[k1], agenda[k2])
    &&& forall|i: int, j: int| 0 <= i < j < ncand ==> #[trigger] contains_pair(agenda, i, j)
}

/// Only one sequence satisfies [`is_agenda`] for a given margin
/// matrix, so a contract stated through it pins the agenda down
/// completely.
pub proof fn lemma_agenda_unique(m: Seq<Vec<i64>>, ncand: int, a: Seq<CandPair>, b: Seq<CandPair>)
    requires
        is_agenda(m, ncand, a),
        is_agenda(m, ncand, b),
    ensures
        a.len() == b.len() ==> a == b,
{
    if a.len() == b.len() {
        assert forall|k: int| 0 <= k < a.len() implies a[k] == b[k] by {
            lemma_agenda_agree_upto(m, ncand, a, b, k);
        }
        assert(a =~= b);
    }
}

/// Two agendas of the same length agree on every position up to `k`.
proof fn lemma_agenda_agree_upto(
    m: Seq<Vec<i64>>,
    ncand: int,
    a: Seq<CandPair>,
    b: Seq<CandPair>,
    k: int,
)
    requires
        is_agenda(m, ncand, a),
        is_agenda(m, ncand, b),
        a.len() == b.len(),
        0 <= k < a.len(),
    ensures
        a[k] == b[k],
    decreases k,
{
    assert forall|i: int| 0 <= i < k implies a[i] == b[i] by {
        lemma_agenda_agree_upto(m, ncand, a, b, i);
    }
    if a[k] != b[k] {
        // the pair a[k] covers appears in b as the same pair-off; the
        // prefixes coincide and repeat no pair, so it must sit later,
        // which orders the two entries both ways at once
        assert(contains_pair(b, pair_lo(a[k]), pair_hi(a[k])));
        let t = choose|t: int|
            0 <= t < b.len() && pair_lo(b[t]) == pair_lo(a[k]) && pair_hi(b[t]) == pair_hi(a[k]);
        assert(b[t] == a[k]);
        if t < k {
            assert(a[t] == b[t]);
            assert(agenda_before(a[t], a[k]));
            assert(false);
        }
        assert(agenda_before(b[k], a[k]));
        assert(contains_pair(a, pair_lo(b[k]), pair_hi(b[k])));
        let s = choose|s: int|
            0 <= s < a.len() && pair_lo(a[s]) == pair_lo(b[k]) && pair_hi(a[s]) == pair_hi(b[k]);
        assert(a[s] == b[k]);
        if s < k {
            assert(b[s] == a[s]);
            assert(agenda_before(b[s], b[k]));
            assert(false);
        }
        assert(agenda_before(a[k], b[k]));
        assert(false);
    }
}

/// The locked flags after the first `k` agenda pairs have been tried:
/// the first two are locked outright, and later pairs stay locked only
/// if some candidate still wins all their locked pairs.
pub open spec fn rp_locked(m: Seq<Vec<i64>>, agenda: Seq<CandPair>, ncand: int, k: nat) -> Seq<
    bool,
>
    decreases k,
{
    if k == 0 {
        Seq::new(agenda.len(), |i: int| false)
    } else {
        let prev = rp_locked(m, agenda, ncand, (k - 1) as nat);
        let tried = prev.update(k - 1, true);
        if k <= 2 {
            tried
        } else if locked_winner_from(m, agenda, tried, ncand, 0) >= 0 {
            tried
        } else {
            prev
        }
    }
}

/// Pairs not yet tried are never locked.
pub proof fn lemma_rp_locked_untried(m: Seq<Vec<i64>>, agenda: Seq<CandPair>, ncand: int, k: nat)
    requires
        k <= agenda.len(),
    ensures
        rp_locked(m, agenda, ncand, k).len() == agenda.len(),
        forall|i: int| k <= i < agenda.len() ==> !(#[trigger] rp_locked(m, agenda, ncand, k)[i]),
    decreases k,
{
    if k > 0 {
        lemma_rp_locked_untried(m, agenda, ncand, (k - 1) as nat);
    }
}

/// The ranked-pairs winner over an agenda: whoever wins all their
/// locked pairs once the whole agenda has been tried (candidate 0 in
/// the never-occurring case that nobody does).
pub open spec fn rp_winner(m: Seq<Vec<i64>>, agenda: Seq<CandPair>, ncand: int) -> int {
    let lw = locked_winner_from(
        m,
        agenda,
        rp_locked(m, agenda, ncand, agenda.len()),
        ncand,
        0,
    );
    if lw >= 0 {
        lw
    } else {
        0
    }
}

/// The agenda without every pair that involves candidate `w`.
pub open spec fn without_cand(agenda: Seq<CandPair>, w: usize) -> Seq<CandPair>
    decreases agenda.len(),
{
    if agenda.len() == 0 {
        Seq::empty()
    } else {
        let rest = without_cand(agenda.drop_last(), w);
        if agenda.last().winner != w && agenda.last().loser != w {
            rest.push(agenda.last())
        } else {
            rest
        }
    }
}

#[derive(Debug, Clone, Copy, PartialEq, Eq, Structural)]
pub struct RP {
    pub strat: Strategy,
}

pub struct RPSim {
    pub params: RP,
    /// The sorted agenda of the last election.
    pub pairs: Vec<CandPair>,
}

impl RP {
    pub fn new_sim(&self, sim: &Sim) -> (m: RPSim)
        requires
            sim.wf(),
        ensures
            m.params == *self,
    {
        RPSim { params: *self, pairs: Vec::new() }
    }
}

impl RPSim {
    /// Run the election: build the agenda, lock pairs top down, and
    /// read off winner and runner-up. The reported scores carry no
    /// meaning for this method (1 and 0).
    pub fn elect(&mut self, sim: &Sim, _honest_rslt: Option<WinnerAndRunnerup>) -> (r:
        WinnerAndRunnerup)
        requires
            sim.wf(),
            sim.margins_ok(),
            sim.ncand >= 2,
        ensures
            is_agenda(sim.i_beats_j_by@, sim.ncand as int, final(self).pairs@),
            r.winner.cand as int == rp_winner(
                sim.i_beats_j_by@,
                final(self).pairs@,
                sim.ncand as int,
            ),
            r.winner.cand < sim.ncand,
            r.runnerup.cand < sim.ncand,
            r.winner.score == 1 && r.runnerup.score == 0,
            sim.ncand > 2 ==> r.runnerup.cand as int == rp_winner(
                sim.i_beats_j_by@,
                without_cand(final(self).pairs@, r.winner.cand),
                sim.ncand as int,
            ),
            sim.ncand == 2 ==> r.runnerup.cand == (if r.winner.cand == 0 {
                1usize
            } else {
                0usize
            }),
            final(self).params == old(self).params,
    {
        let ncand = sim.ncand;
        let mut raw: Vec<CandPair> = Vec::new();
        find_candidate_pairoffs(&mut raw, sim);
        // sort by descending margin; equal margins keep pair order
        let mut keys: Vec<i64> = Vec::new();
        let mut k: usize = 0;
        while k < raw.len()
            invariant
                k <= raw@.len(),
                keys@.len() == k,
                forall|k2: int| 0 <= k2 < k ==> #[trigger] keys@[k2] == raw@[k2].margin,
            decreases raw@.len() - k,
        {
            keys.push(raw[k].margin);
            k += 1;
        }
        let order = sorted_ids_desc(&keys);
        let mut agenda: Vec<CandPair> = Vec::new();
        let mut t: usize = 0;
        while t < order.len()
            invariant
                sorted_perm(keys@, order@),
                keys@.len() == raw@.len(),
                forall|k2: int| 0 <= k2 < raw@.len() ==> #[trigger] keys@[k2] == raw@[k2].margin,
                t <= order@.len(),
                agenda@.len() == t,
                forall|k2: int| 0 <= k2 < t ==> #[trigger] agenda@[k2] == raw@[order@[k2] as int],
            decreases order@.len() - t,
        {
            let idx = order[t];
            agenda.push(raw[idx]);
            t += 1;
        }
        proof {
            assert(raw@.len() <= usize::MAX) by {
                assert(keys@.len() == k as nat);
            }
            lemma_agenda_sorted(sim.i_beats_j_by@, ncand as int, raw@, keys@, order@, agenda@);
        }
        self.pairs = agenda;
        let winner = find_rp_winner(&self.pairs, sim);
        let runner_up: usize;
        if ncand > 2 {
            let mut rest: Vec<CandPair> = Vec::new();
            let mut k2: usize = 0;
            while k2 < self.pairs.len()
                invariant
                    k2 <= self.pairs@.len(),
                    forall|k3: int|
                        0 <= k3 < self.pairs@.len() ==> pair_ok(
                            sim.i_beats_j_by@,
                            ncand as int,
                            #[trigger] self.pairs@[k3],
                        ),
                    sim.wf(),
                    sim.ncand == ncand,
                    rest@ == without_cand(self.pairs@.subrange(0, k2 as int), winner),
                    forall|k3: int|
                        0 <= k3 < rest@.len() ==> pair_ok(
                            sim.i_beats_j_by@,
                            ncand as int,
                            #[trigger] rest@[k3],
                        ),
                decreases self.pairs@.len() - k2,
            {
                let ghost pre = self.pairs@.subrange(0, k2 as int);
                let ghost post = self.pairs@.subrange(0, k2 as int + 1);
                proof {
                    assert(post.drop_last() =~= pre);
                    assert(post.last() == self.pairs@[k2 as int]);
                }
                let p = self.pairs[k2];
                if p.winner != winner && p.loser != winner {
                    rest.push(p);
                }
                k2 += 1;
            }
            proof {
                assert(self.pairs@.subrange(0, self.pairs@.len() as int) =~= self.pairs@);
            }
            runner_up = find_rp_winner(&rest, sim);
        } else {
            runner_up = if winner == 0 {
                1
            } else {
                0
            };
        }
        WinnerAndRunnerup {
            winner: ElectResult { cand: winner, score: 1 },
            runnerup: ElectResult { cand: runner_up, score: 0 },
        }
    }

    pub fn name(&self) -> (s: String)
        ensures
            self.params.strat == Strategy::Honest ==> s@ == "RP, Honest"@,
            self.params.strat == Strategy::Strategic ==> s@ == "RP, Strategic"@,
    {
        match self.params.strat {
            Strategy::Honest => String::from_str("RP, Honest"),
            Strategy::Strategic => String::from_str("RP, Strategic"),
        }
    }

    pub fn colname(&self) -> (s: String)
        ensures
            self.params.strat == Strategy::Honest ==> s@ == "rp_h"@,
            self.params.strat == Strategy::Strategic ==> s@ == "rp_s"@,
    {
        match self.params.strat {
            Strategy::Honest => String::from_str("rp_h"),
            Strategy::Strategic => String::from_str("rp_s"),
        }
    }

    pub fn strat(&self) -> (s: Strategy)
        ensures
            s == self.params.strat,
    {
        self.params.strat
    }
}

/// The sorted agenda built from the ascending pair list satisfies
/// [`is_agenda`].
proof fn lemma_agenda_sorted(
    m: Seq<Vec<i64>>,
    ncand: int,
    raw: Seq<CandPair>,
    keys: Seq<i64>,
    order: Seq<usize>,
    agenda: Seq<CandPair>,
)
    requires
        is_pair_list(m, ncand, raw),
        raw.len() <= usize::MAX,
        keys.len() == raw.len(),
        forall|k: int| 0 <= k < raw.len() ==> #[trigger] keys[k] == raw[k].margin,
        sorted_perm(keys, order),
        agenda.len() == order.len(),
        forall|k: int| 0 <= k < agenda.len() ==> #[trigger] agenda[k] == raw[order[k] as int],
    ensures
        is_agenda(m, ncand, agenda),
{
    assert forall|k1: int, k2: int| 0 <= k1 < k2 < agenda.len() implies agenda_before(
        agenda[k1],
        agenda[k2],
    ) by {
        assert(crate::sorting::id_before(keys, order[k1] as int, order[k2] as int));
        if keys[order[k1] as int] == keys[order[k2] as int] {
            assert(order[k1] < order[k2]);
        }
    }
    assert forall|i: int, j: int| 0 <= i < j < ncand implies #[trigger] contains_pair(
        agenda,
        i,
        j,
    ) by {
        assert(contains_pair(raw, i, j));
        let k0 = choose|k0: int|
            0 <= k0 < raw.len() && pair_lo(raw[k0]) == i && pair_hi(raw[k0]) == j;
        assert(order.contains(k0 as usize));
        let t = choose|t: int| 0 <= t < order.len() && order[t] == k0 as usize;
        assert(order[t] as int == k0);
        assert(agenda[t] == raw[k0]);
        assert(pair_lo(agenda[t]) == i && pair_hi(agenda[t]) == j);
    }
}

/// Lock the agenda top down, skipping cycle-making pairs, and return
/// the candidate who wins all their locked pairs.
fn find_rp_winner(pairs: &Vec<CandPair>, sim: &Sim) -> (w: usize)
    requires
        sim.wf(),
        forall|k: int|
            0 <= k < pairs@.len() ==> pair_ok(sim.i_beats_j_by@, sim.ncand as int, #[trigger] pairs@[k]),
    ensures
        w as int == ({
            let lw = locked_winner_from(
                sim.i_beats_j_by@,
                pairs@,
                rp_locked(sim.i_beats_j_by@, pairs@, sim.ncand as int, pairs@.len()),
                sim.ncand as int,
                0,
            );
            if lw >= 0 {
                lw
            } else {
                0
            }
        }),
        w < sim.ncand,
{
    let ncand = sim.ncand;
    let npairs = pairs.len();
    let mut locked: Vec<bool> = filled(npairs, false);
    proof {
        assert(locked@ =~= rp_locked(sim.i_beats_j_by@, pairs@, ncand as int, 0));
    }
    let mut k: usize = 0;
    while k < npairs
        invariant
            sim.wf(),
            sim.ncand == ncand,
            pairs@.len() == npairs,
            forall|k2: int|
                0 <= k2 < npairs ==> pair_ok(sim.i_beats_j_by@, ncand as int, #[trigger] pairs@[k2]),
            k <= npairs,
            locked@.len() == npairs,
            locked@ == rp_locked(sim.i_beats_j_by@, pairs@, ncand as int, k as nat),
        decreases npairs - k,
    {
        let ghost prev = locked@;
        proof {
            lemma_rp_locked_untried(sim.i_beats_j_by@, pairs@, ncand as int, k as nat);
        }
        lock_in(&mut locked, k, true);
        if k < 2 {
        } else {
            match find_locked_in_winner(&locked, pairs, sim) {
                Some(_) => {},
                None => {
                    lock_in(&mut locked, k, false);
                    proof {
                        assert(locked@ =~= prev);
                    }
                },
            }
        }
        k += 1;
    }
    match find_locked_in_winner(&locked, pairs, sim) {
        Some(w) => w,
        None => 0,
    }
}

} // verus!
