//! The library of voting methods.
//!
//! Every method is a tagged variant carrying its parameters; an
//! instantiated method (its per-election workspace) is the matching
//! `*Sim` variant. Single-winner methods share the `elect` operation,
//! multi-winner methods share `multi_elect`.

use vstd::prelude::*;

pub mod borda;
pub mod btr_irv;
pub mod condorcet_util;
pub mod instant_runoff;
pub mod minimax;
pub mod multivote;
pub mod plurality;
pub mod plurality_top_n;
pub mod ranked_pairs;
pub mod rangevoting;
pub mod results;
pub mod reweighted_range;
pub mod star;
pub mod tallies;
pub mod test_utils;

pub use borda::Borda;
pub use btr_irv::BtrIrv;
pub use instant_runoff::InstantRunoff;
pub use minimax::Minimax;
pub use multivote::Multivote;
pub use plurality::Plurality;
pub use plurality_top_n::PluralityTopN;
pub use rangevoting::RangeVoting;
pub use ranked_pairs::RP;
pub use results::{default_honest, ElectResult, Strategy, WinnerAndRunnerup};
pub use reweighted_range::RRV;
pub use star::STAR;

use crate::sim::Sim;
use crate::{MAX_K, MAX_RANKS, MAX_SPREAD, MAX_STRETCH, MAX_VOTES};

verus! {

/// A configured single-winner method.
#[derive(Debug, Clone, Copy, PartialEq, Eq, Structural)]
pub enum Method {
    Plurality(Plurality),
    Range(RangeVoting),
    InstantRunoff(InstantRunoff),
    Borda(Borda),
    Multivote(Multivote),
    STAR(STAR),
    RP(RP),
    BtrIrv(BtrIrv),
    MM(Minimax),
}

impl Method {
    /// The method's numeric parameters are inside the supported ranges
    /// for an election with `ncand` candidates.
    pub open spec fn params_ok(self, ncand: int) -> bool {
        match self {
            Method::Plurality(_) => true,
            Method::Range(m) => 2 <= m.nranks <= MAX_RANKS && 1 <= m.strategic_stretch_factor
                <= MAX_STRETCH,
            Method::InstantRunoff(_) => true,
            Method::Borda(m) => m.rank_top_n matches Some(n) ==> 1 <= n <= ncand,
            Method::Multivote(m) => 1 <= m.votes <= MAX_VOTES && 1 <= m.spread_num <= MAX_SPREAD
                && 1 <= m.spread_den <= MAX_SPREAD,
            Method::STAR(m) => 2 <= m.nranks <= MAX_RANKS && 1 <= m.strategic_stretch_factor
                <= MAX_STRETCH,
            Method::RP(_) => true,
            Method::BtrIrv(_) => true,
            Method::MM(_) => true,
        }
    }

    /// The strategy a run of this method counts as for later methods:
    /// an honest run's outcome becomes the pre-election poll that the
    /// next strategic method reads. Methods without a working
    /// strategic mode always count as honest.
    pub open spec fn chain_strat(self) -> Strategy {
        match self {
            Method::Plurality(m) => m.strat,
            Method::Range(m) => m.strat,
            Method::InstantRunoff(_) => Strategy::Honest,
            Method::Borda(_) => Strategy::Honest,
            Method::Multivote(m) => m.strat,
            Method::STAR(m) => m.strat,
            Method::RP(m) => m.strat,
            Method::BtrIrv(_) => Strategy::Honest,
            Method::MM(_) => Strategy::Honest,
        }
    }

    /// Whether `elect` demands the honest result of an earlier poll.
    pub open spec fn wants_prev(self) -> bool {
        match self {
            Method::Range(m) => m.strat == Strategy::Strategic,
            Method::Borda(m) => m.strat == Strategy::Strategic,
            Method::STAR(m) => m.strat == Strategy::Strategic,
            _ => false,
        }
    }

    /// Build this method's per-election workspace.
    pub fn new_sim(&self, sim: &Sim) -> (m: MethodSim)
        requires
            sim.wf(),
        ensures
            m.of_method() == *self,
    {
        match self {
            Method::Plurality(p) => MethodSim::Plurality(p.new_sim(sim)),
            Method::Range(p) => MethodSim::Range(p.new_sim(sim)),
            Method::InstantRunoff(p) => MethodSim::InstantRunoff(p.new_sim(sim)),
            Method::Borda(p) => MethodSim::Borda(p.new_sim(sim)),
            Method::Multivote(p) => MethodSim::Multivote(p.new_sim(sim)),
            Method::STAR(p) => MethodSim::STAR(p.new_sim(sim)),
            Method::RP(p) => MethodSim::RP(p.new_sim(sim)),
            Method::BtrIrv(p) => MethodSim::BtrIrv(p.new_sim(sim)),
            Method::MM(p) => MethodSim::MM(p.new_sim(sim)),
        }
    }
}

/// An instantiated single-winner method. Each variant's own `elect`
/// carries the exact statement of what that method computes; this
/// dispatcher promises what every method has in common.
pub enum MethodSim {
    Plurality(plurality::PluralitySim),
    Range(rangevoting::RangeVotingSim),
    InstantRunoff(instant_runoff::IRVSim),
    Borda(borda::BordaSim),
    Multivote(multivote::MultivoteSim),
    STAR(star::STARSim),
    RP(ranked_pairs::RPSim),
    BtrIrv(btr_irv::BtrIrvSim),
    MM(minimax::MinimaxSim),
}

impl MethodSim {
    /// The configuration this workspace was built from.
    pub open spec fn of_method(self) -> Method {
        match self {
            MethodSim::Plurality(m) => Method::Plurality(m.params),
            MethodSim::Range(m) => Method::Range(m.params),
            MethodSim::InstantRunoff(m) => Method::InstantRunoff(m.p),
            MethodSim::Borda(m) => Method::Borda(m.p),
            MethodSim::Multivote(m) => Method::Multivote(m.p),
            MethodSim::STAR(m) => Method::STAR(m.params),
            MethodSim::RP(m) => Method::RP(m.params),
            MethodSim::BtrIrv(m) => Method::BtrIrv(m.p),
            MethodSim::MM(m) => Method::MM(m.p),
        }
    }

    /// Run the method. The winner is always a real candidate; each
    /// variant's own `elect` states the exact tallies and outcome.
    pub fn elect(&mut self, sim: &Sim, honest_rslt: Option<WinnerAndRunnerup>) -> (r:
        WinnerAndRunnerup)
        requires
            sim.wf(),
            sim.ranks_ok(),
            sim.margins_ok(),
            sim.ncand >= 2,
            old(self).of_method().params_ok(sim.ncand as int),
            old(self).of_method().wants_prev() ==> (honest_rslt matches Some(pre)
                && pre.winner.cand < sim.ncand && pre.runnerup.cand < sim.ncand),
            honest_rslt matches Some(pre) ==> pre.winner.cand < sim.ncand && pre.runnerup.cand
                < sim.ncand,
        ensures
            final(self).of_method() == old(self).of_method(),
            r.winner.cand < sim.ncand,
    {
        match self {
            MethodSim::Plurality(m) => m.elect(sim, honest_rslt),
            MethodSim::Range(m) => m.elect(sim, honest_rslt),
            MethodSim::InstantRunoff(m) => m.elect(sim, honest_rslt),
            MethodSim::Borda(m) => m.elect(sim, honest_rslt),
            MethodSim::Multivote(m) => m.elect(sim, honest_rslt),
            MethodSim::STAR(m) => {
                let r = m.elect(sim, honest_rslt);
                proof {
                    let (a, b) = choose|a: usize, b: usize|
                        star::star_pick(m.tallies@, m.preference_matrix@, a, b, r);
                }
                r
            },
            MethodSim::RP(m) => m.elect(sim, honest_rslt),
            MethodSim::BtrIrv(m) => m.elect(sim, honest_rslt),
            MethodSim::MM(m) => m.elect(sim, honest_rslt),
        }
    }

    pub fn name(&self) -> String {
        match self {
            MethodSim::Plurality(m) => m.name(),
            MethodSim::Range(m) => m.name(),
            MethodSim::InstantRunoff(m) => m.name(),
            MethodSim::Borda(m) => m.name(),
            MethodSim::Multivote(m) => m.name(),
            MethodSim::STAR(m) => m.name(),
            MethodSim::RP(m) => m.name(),
            MethodSim::BtrIrv(m) => m.name(),
            MethodSim::MM(m) => m.name(),
        }
    }

    pub fn colname(&self) -> String {
        match self {
            MethodSim::Plurality(m) => m.colname(),
            MethodSim::Range(m) => m.colname(),
            MethodSim::InstantRunoff(m) => m.colname(),
            MethodSim::Borda(m) => m.colname(),
            MethodSim::Multivote(m) => m.colname(),
            MethodSim::STAR(m) => m.colname(),
            MethodSim::RP(m) => m.colname(),
            MethodSim::BtrIrv(m) => m.colname(),
            MethodSim::MM(m) => m.colname(),
        }
    }

    /// The strategy this run counts as: an honest result is kept as
    /// the pre-election poll for later strategic methods.
    pub fn strat(&self) -> (s: Strategy)
        ensures
            s == self.of_method().chain_strat(),
    {
        match self {
            MethodSim::Plurality(m) => m.strat(),
            MethodSim::Range(m) => m.strat(),
            MethodSim::InstantRunoff(m) => m.strat(),
            MethodSim::Borda(m) => m.strat(),
            MethodSim::Multivote(m) => m.strat(),
            MethodSim::STAR(m) => m.strat(),
            MethodSim::RP(m) => m.strat(),
            MethodSim::BtrIrv(m) => m.strat(),
            MethodSim::MM(m) => m.strat(),
        }
    }
}

/// A configured multi-winner (primary) method.
#[derive(Debug, Clone, Copy, PartialEq, Eq, Structural)]
pub enum MultiWinMethod {
    RRV(RRV),
    PluralityTopN(PluralityTopN),
}

impl MultiWinMethod {
    pub open spec fn params_ok(self) -> bool {
        match self {
            MultiWinMethod::RRV(m) => 2 <= m.ranks <= MAX_RANKS && 1 <= m.k_num <= MAX_K && 1
                <= m.k_den <= MAX_K,
            MultiWinMethod::PluralityTopN(_) => true,
        }
    }

    pub fn new_sim(&self, sim: &Sim) -> (m: MWMethodSim)
        requires
            sim.wf(),
        ensures
            m.of_method() == *self,
    {
        match self {
            MultiWinMethod::RRV(p) => MWMethodSim::RRV(p.new_sim(sim)),
            MultiWinMethod::PluralityTopN(p) => MWMethodSim::PluralityTopN(p.new_sim(sim)),
        }
    }
}

/// An instantiated multi-winner method.
pub enum MWMethodSim {
    RRV(reweighted_range::RRVSim),
    PluralityTopN(plurality_top_n::PluralityTopNSim),
}

impl MWMethodSim {
    pub open spec fn of_method(self) -> MultiWinMethod {
        match self {
            MWMethodSim::RRV(m) => MultiWinMethod::RRV(m.p),
            MWMethodSim::PluralityTopN(m) => MultiWinMethod::PluralityTopN(m.p),
        }
    }

    /// Elect `nwinners` winners, each a real candidate; the variant's
    /// own `multi_elect` pins the round-by-round outcome down.
    pub fn multi_elect(
        &mut self,
        sim: &Sim,
        honest_rslt: Option<WinnerAndRunnerup>,
        nwinners: usize,
    ) -> (winners: Vec<ElectResult>)
        requires
            sim.wf(),
            sim.ranks_ok(),
            1 <= nwinners <= sim.ncand,
            old(self).of_method().params_ok(),
        ensures
            final(self).of_method() == old(self).of_method(),
            winners@.len() == nwinners,
            forall|k: int| 0 <= k < nwinners ==> (#[trigger] winners@[k]).cand < sim.ncand,
    {
        match self {
            MWMethodSim::RRV(m) => m.multi_elect(sim, honest_rslt, nwinners),
            MWMethodSim::PluralityTopN(m) => {
                let winners = m.multi_elect(sim, honest_rslt, nwinners);
                proof {
                    let order = choose|order: Seq<usize>|
                        #[trigger] crate::sorting::sorted_perm(m.tallies@, order) && forall|k: int|
                            0 <= k < nwinners ==> winners@[k] == (ElectResult {
                                cand: order[k],
                                score: m.tallies@[order[k] as int],
                            });
                    assert forall|k: int| 0 <= k < nwinners implies (#[trigger] winners@[k]).cand
                        < sim.ncand by {
                        assert(winners@[k] == (ElectResult {
                            cand: order[k],
                            score: m.tallies@[order[k] as int],
                        }));
                        assert(order[k] < m.tallies@.len());
                    }
                }
                winners
            },
        }
    }
}

} // verus!
