//! Turning a vector of per-candidate tallies into a winner and runner-up.

use super::results::{ElectResult, WinnerAndRunnerup};
use vstd::prelude::*;

verus! {

pub type Tallies = Vec<i64>;

/// `r` is a sound reading of the tally vector: the winner holds a
/// maximal tally, the runner-up a maximal tally among the others, and
/// both report their own tally as score. When winner and runner-up are
/// exactly tied this does not say which one is reported first.
pub open spec fn tallied(tallies: Seq<i64>, r: WinnerAndRunnerup) -> bool {
    &&& r.winner.cand < tallies.len()
    &&& r.runnerup.cand < tallies.len()
    &&& r.winner.cand != r.runnerup.cand
    &&& r.winner.score == tallies[r.winner.cand as int]
    &&& r.runnerup.score == tallies[r.runnerup.cand as int]
    &&& forall|j: int| 0 <= j < tallies.len() ==> tallies[j] <= r.winner.score
    &&& forall|j: int|
        0 <= j < tallies.len() && j != r.winner.cand ==> tallies[j] <= r.runnerup.score
}

/// Relies on rand::random::<bool>: a fresh draw from the thread's
/// generator; nothing is assumed about which side comes up.
#[verifier::external_body]
fn coin_flip() -> bool {
    rand::random()
}

/// Pick the candidate with the most votes, and the best of the rest.
///
/// The winner holds a maximal tally and the runner-up a maximal tally
/// among the other candidates; a winner who is strictly ahead is the
/// first candidate attaining the maximum. When the two top tallies are
/// exactly equal the two places are swapped or kept with even odds, so
/// no clause here pins which of the tied candidates is reported first.
pub fn tally_votes(tallies: &Tallies) -> (r: WinnerAndRunnerup)
    requires
        tallies@.len() >= 2,
    ensures
        tallied(tallies@, r),
        r.winner.score > r.runnerup.score ==> forall|j: int|
            0 <= j < r.winner.cand ==> #[trigger] tallies@[j] < r.winner.score,
{
    let ncand = tallies.len();
    let mut electee = 0usize;
    let mut most_votes = tallies[0];
    let mut runup = 1usize;
    let mut runup_votes = tallies[1];
    if runup_votes > most_votes {
        electee = 1;
        runup = 0;
        most_votes = tallies[1];
        runup_votes = tallies[0];
    }
    let mut j = 2usize;
    while j < ncand
        invariant
            tallies@.len() == ncand,
            2 <= j <= ncand,
            electee < j,
            runup < j,
            electee != runup,
            most_votes == tallies@[electee as int],
            runup_votes == tallies@[runup as int],
            forall|i: int| 0 <= i < j ==> tallies@[i] <= most_votes,
            forall|i: int| 0 <= i < j && i != electee ==> tallies@[i] <= runup_votes,
            forall|i: int| 0 <= i < electee ==> tallies@[i] < most_votes,
        decreases ncand - j,
    {
        if tallies[j] > most_votes {
            runup = electee;
            runup_votes = most_votes;
            electee = j;
            most_votes = tallies[j];
        } else if tallies[j] > runup_votes {
            runup = j;
            runup_votes = tallies[j];
        }
        j += 1;
    }
    if most_votes == runup_votes {
        if coin_flip() {
            let tmp = electee;
            electee = runup;
            runup = tmp;
            let tmpv = most_votes;
            most_votes = runup_votes;
            runup_votes = tmpv;
        }
    }
    WinnerAndRunnerup {
        winner: ElectResult { cand: electee, score: most_votes },
        runnerup: ElectResult { cand: runup, score: runup_votes },
    }
}

} // verus!
