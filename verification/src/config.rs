//! The decoded simulation configuration and its validation.
//!
//! The file handling lives with the caller; the core consumes a plain
//! configuration object and checks it before any election runs.

use crate::methods::{Method, MultiWinMethod};
use crate::{MAX_CANDIDATES, MAX_VOTERS};
use vstd::prelude::*;

verus! {

/// Why a configuration cannot be run.
#[derive(Debug, Clone, Copy, PartialEq, Eq, Structural)]
pub enum ConfigError {
    /// Fewer than two candidates, or none at all.
    TooFewCandidates,
    /// More candidates than the tables support.
    TooManyCandidates,
    /// No voters.
    NoVoters,
    /// More voters than the tables support.
    TooManyVoters,
    /// A primary is configured with fewer candidates than the general
    /// election needs, or with more than the tables support.
    PrimarySizeInvalid,
    /// A primary candidate count is set but no primary method is.
    MissingPrimaryMethod,
    /// A primary method's numeric parameters are out of range.
    BadPrimaryMethodParams,
    /// A single-winner method's numeric parameters are out of range.
    BadMethodParams,
}

/// The decoded configuration the simulator runs from.
pub struct Config {
    pub voters: usize,
    pub candidates: usize,
    /// When set, every trial first runs a primary election with this
    /// many candidates and carries the winners into the general one.
    pub primary_candidates: Option<usize>,
    /// The single-winner methods to run, in order; strategic variants
    /// read the latest honest result before them.
    pub methods: Vec<Method>,
    /// The multi-winner method of the primary; required exactly when
    /// `primary_candidates` is set.
    pub primary_method: Option<MultiWinMethod>,
}

impl Config {
    /// The voter and candidate counts fit the tables.
    pub open spec fn counts_ok(self) -> bool {
        &&& 2 <= self.candidates <= MAX_CANDIDATES
        &&& 1 <= self.voters <= MAX_VOTERS
    }

    /// A configured primary has a workable size and a method.
    pub open spec fn primary_shape_ok(self) -> bool {
        self.primary_candidates matches Some(p) ==> self.candidates <= p <= MAX_CANDIDATES
            && self.primary_method is Some
    }

    /// A configured primary method has workable parameters.
    pub open spec fn primary_params_ok(self) -> bool {
        self.primary_method matches Some(m) ==> m.params_ok()
    }

    /// Every single-winner method has workable parameters.
    pub open spec fn methods_ok(self) -> bool {
        forall|k: int|
            0 <= k < self.methods@.len() ==> (#[trigger] self.methods@[k]).params_ok(
                self.candidates as int,
            )
    }

    /// Everything the per-trial machinery relies on.
    pub open spec fn valid(self) -> bool {
        &&& self.counts_ok()
        &&& self.primary_shape_ok()
        &&& self.primary_params_ok()
        &&& self.methods_ok()
    }

    /// Check the configuration. Returns `Ok` exactly when [`valid`]
    /// holds; otherwise the error names the first rule broken, in the
    /// order the checks are written here.
    pub fn validate(&self) -> (r: Result<(), ConfigError>)
        ensures
            r is Ok <==> self.valid(),
            self.candidates < 2 ==> r == Result::<(), ConfigError>::Err(
                ConfigError::TooFewCandidates,
            ),
            self.candidates >= 2 && self.candidates > MAX_CANDIDATES ==> r == Result::<
                (),
                ConfigError,
            >::Err(ConfigError::TooManyCandidates),
            2 <= self.candidates <= MAX_CANDIDATES && self.voters < 1 ==> r == Result::<
                (),
                ConfigError,
            >::Err(ConfigError::NoVoters),
            2 <= self.candidates <= MAX_CANDIDATES && self.voters > MAX_VOTERS ==> r == Result::<
                (),
                ConfigError,
            >::Err(ConfigError::TooManyVoters),
            self.counts_ok() && (self.primary_candidates matches Some(p) && !(self.candidates
                <= p <= MAX_CANDIDATES)) ==> r == Result::<(), ConfigError>::Err(
                ConfigError::PrimarySizeInvalid,
            ),
            self.counts_ok() && (self.primary_candidates matches Some(p) && self.candidates <= p
                <= MAX_CANDIDATES) && self.primary_method is None ==> r == Result::<
                (),
                ConfigError,
            >::Err(ConfigError::MissingPrimaryMethod),
            self.counts_ok() && self.primary_shape_ok() && (self.primary_method matches Some(m)
                && !m.params_ok()) ==> r == Result::<(), ConfigError>::Err(
                ConfigError::BadPrimaryMethodParams,
            ),
            self.counts_ok() && self.primary_shape_ok() && self.primary_params_ok()
                && !self.methods_ok() ==> r == Result::<(), ConfigError>::Err(
                ConfigError::BadMethodParams,
            ),
    {
        if self.candidates < 2 {
            return Err(ConfigError::TooFewCandidates);
        }
        if self.candidates > MAX_CANDIDATES {
            return Err(ConfigError::TooManyCandidates);
        }
        if self.voters < 1 {
            return Err(ConfigError::NoVoters);
        }
        if self.voters > MAX_VOTERS {
            return Err(ConfigError::TooManyVoters);
        }
        match self.primary_candidates {
            Some(p) => {
                if p < self.candidates || p > MAX_CANDIDATES {
                    return Err(ConfigError::PrimarySizeInvalid);
                }
                match &self.primary_method {
                    Some(m) => {
                        if !mw_params_in_range(m) {
                            return Err(ConfigError::BadPrimaryMethodParams);
                        }
                    },
                    None => {
                        return Err(ConfigError::MissingPrimaryMethod);
                    },
                }
            },
            None => {
                match &self.primary_method {
                    Some(m) => {
                        if !mw_params_in_range(m) {
                            return Err(ConfigError::BadPrimaryMethodParams);
                        }
                    },
                    None => {},
                }
            },
        }
        let mut k: usize = 0;
        while k < self.methods.len()
            invariant
                k <= self.methods@.len(),
                2 <= self.candidates <= MAX_CANDIDATES,
                1 <= self.voters <= MAX_VOTERS,
                self.primary_candidates matches Some(p) ==> self.candidates <= p <= MAX_CANDIDATES
                    && self.primary_method is Some,
                self.primary_method matches Some(m) ==> m.params_ok(),
                forall|k2: int|
                    0 <= k2 < k ==> (#[trigger] self.methods@[k2]).params_ok(
                        self.candidates as int,
                    ),
            decreases self.methods@.len() - k,
        {
            if !method_params_in_range(&self.methods[k], self.candidates) {
                return Err(ConfigError::BadMethodParams);
            }
            k += 1;
        }
        Ok(())
    }
}

/// Runtime check of [`Method::params_ok`].
fn method_params_in_range(m: &Method, ncand: usize) -> (r: bool)
    ensures
        r == m.params_ok(ncand as int),
{
    match m {
        Method::Plurality(_) => true,
        Method::Range(p) => 2 <= p.nranks && p.nranks <= crate::MAX_RANKS && 1
            <= p.strategic_stretch_factor && p.strategic_stretch_factor <= crate::MAX_STRETCH,
        Method::InstantRunoff(_) => true,
        Method::Borda(p) => match p.rank_top_n {
            Some(n) => 1 <= n && n <= ncand,
            None => true,
        },
        Method::Multivote(p) => 1 <= p.votes && p.votes <= crate::MAX_VOTES && 1 <= p.spread_num
            && p.spread_num <= crate::MAX_SPREAD && 1 <= p.spread_den && p.spread_den
            <= crate::MAX_SPREAD,
        Method::STAR(p) => 2 <= p.nranks && p.nranks <= crate::MAX_RANKS && 1
            <= p.strategic_stretch_factor && p.strategic_stretch_factor <= crate::MAX_STRETCH,
        Method::RP(_) => true,
        Method::BtrIrv(_) => true,
        Method::MM(_) => true,
    }
}

/// Runtime check of [`MultiWinMethod::params_ok`].
fn mw_params_in_range(m: &MultiWinMethod) -> (r: bool)
    ensures
        r == m.params_ok(),
{
    match m {
        MultiWinMethod::RRV(p) => 2 <= p.ranks && p.ranks <= crate::MAX_RANKS && 1 <= p.k_num
            && p.k_num <= crate::MAX_K && 1 <= p.k_den && p.k_den <= crate::MAX_K,
        MultiWinMethod::PluralityTopN(_) => true,
    }
}

} // verus!
