//! Common result types shared by every voting method.

use vstd::prelude::*;

verus! {

/// One elected candidate together with the method-specific score that got
/// them elected (a vote count, a minimum margin, a weighted sum, ...).
#[derive(Debug, Clone, Copy, PartialEq, Eq, Structural)]
pub struct ElectResult {
    pub cand: usize,
    pub score: i64,
}

/// The outcome of a single-winner method: the winner and the runner-up.
#[derive(Debug, Clone, Copy, PartialEq, Eq, Structural)]
pub struct WinnerAndRunnerup {
    pub winner: ElectResult,
    pub runnerup: ElectResult,
}

/// Whether a method votes sincerely or reacts to a pre-election poll.
#[derive(Debug, Clone, Copy, PartialEq, Eq, Structural)]
pub enum Strategy {
    Honest,
    Strategic,
}

/// The word a label uses for a strategy.
pub open spec fn strategy_word(s: Strategy) -> Seq<char> {
    match s {
        Strategy::Honest => "Honest"@,
        Strategy::Strategic => "Strategic"@,
    }
}

/// The letter a column name uses for a strategy.
pub open spec fn strategy_letter(s: Strategy) -> Seq<char> {
    match s {
        Strategy::Honest => "h"@,
        Strategy::Strategic => "s"@,
    }
}

pub fn default_honest() -> (s: Strategy)
    ensures
        s == Strategy::Honest,
{
    Strategy::Honest
}

impl WinnerAndRunnerup {
    /// The two reported scores are equal, so the method itself could not
    /// separate winner and runner-up.
    pub open spec fn tied(self) -> bool {
        self.winner.score == self.runnerup.score
    }

    pub fn is_tied(&self) -> (r: bool)
        ensures
            r == self.tied(),
    {
        self.winner.score == self.runnerup.score
    }
}

impl Strategy {
    pub fn as_letter(&self) -> (r: &'static str)
        ensures
            *self == Strategy::Honest ==> r@ == "h"@,
            *self == Strategy::Strategic ==> r@ == "s"@,
    {
        match self {
            Strategy::Honest => "h",
            Strategy::Strategic => "s",
        }
    }
}

} // verus!
