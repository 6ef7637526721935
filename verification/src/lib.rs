//! Core of a Monte-Carlo simulator that compares single-winner voting
//! methods under a shared model of voter preferences.
//!
//! The library works on an integer utility model: each voter's perceived
//! utility for each candidate is a bounded `i64` (callers that start from
//! real-valued utilities quantize them to a fixed-point scale first; only
//! the relative sizes of a voter's scores matter to every method here).
//! From a filled score matrix the [`sim::Sim`] workspace derives the rank
//! table, the pairwise-margin matrix, the regret ordering and the Smith
//! set, and the modules under [`methods`] run the individual voting
//! methods over those tables.

use vstd::prelude::*;

pub mod config;
pub mod methods;
pub mod run;
pub mod sim;
pub mod sorting;
pub mod tables;

verus! {

/// Largest supported number of voters.
pub const MAX_VOTERS: usize = 0x7fff_ffff;

/// Largest supported number of candidates.
pub const MAX_CANDIDATES: usize = 0x7fff;

/// Largest supported magnitude of a single utility score.
pub const MAX_SCORE: i64 = 0x3fff_ffff;

/// Largest supported number of grades on a range-style ballot.
pub const MAX_RANKS: i64 = 2048;

/// Largest supported number of votes a Multivote ballot may cast.
pub const MAX_VOTES: i64 = 2048;

/// Largest supported numerator or denominator of the Multivote spread factor.
pub const MAX_SPREAD: i64 = 0x100000;

/// Largest supported strategic stretch factor for range-style ballots.
pub const MAX_STRETCH: i64 = 0x10000;

/// Largest supported numerator or denominator of the reweighted-range `k`.
pub const MAX_K: i64 = 0x100000;

/// Fixed-point unit for reweighted-range ballot weights: a full-weight
/// ballot counts as this many units.
pub const RRV_SCALE: i64 = 1000000;

} // verus!
