//! What a search can be tuned by, with the values it uses when nothing is
//! said.

use vstd::prelude::*;

use crate::search::LEVEL_LIMIT;

verus! {

/// Probe rounds per direction and level, unless configured otherwise.
pub const DEFAULT_ROUNDS_PER_LEVEL: u32 = 200;

/// Candidates per probe batch, unless configured otherwise.
pub const DEFAULT_BATCH_SIZE: u32 = 1000;

/// Least difference of the two timing totals that is taken for a signal,
/// unless configured otherwise.
pub const DEFAULT_DECISION_THRESHOLD: u128 = 20000;

/// The last level that is searched, unless configured otherwise.
pub const DEFAULT_MAX_LEVEL: u32 = 126;

/// The tunable parts of a search.
#[derive(Clone, Copy, Debug, PartialEq, Eq, Structural)]
pub struct SearchConfig {
    /// Probe rounds per direction that make up one level's measurement.
    pub rounds_per_level: u32,
    /// Candidates sent in one probe batch.
    pub batch_size: u32,
    /// The difference that one timing total must exceed the other by.
    pub decision_threshold: u128,
    /// The last level at which the pivot is adjusted.
    pub max_level: u32,
}

impl SearchConfig {
    /// A configuration that a search can run on: each level takes at least
    /// one round, and no level is asked for at which no adjustment exists.
    pub open spec fn valid(&self) -> bool {
        &&& self.rounds_per_level >= 1
        &&& self.max_level <= LEVEL_LIMIT
    }

    /// Tests whether a search can run on this configuration.
    pub fn is_valid(&self) -> (ok: bool)
        ensures
            ok == self.valid(),
    {
        self.rounds_per_level >= 1 && self.max_level <= LEVEL_LIMIT
    }
}

impl Default for SearchConfig {
    fn default() -> (config: SearchConfig)
        ensures
            config.rounds_per_level == DEFAULT_ROUNDS_PER_LEVEL,
            config.batch_size == DEFAULT_BATCH_SIZE,
            config.decision_threshold == DEFAULT_DECISION_THRESHOLD,
            config.max_level == DEFAULT_MAX_LEVEL,
            config.valid(),
    {
        SearchConfig {
            rounds_per_level: DEFAULT_ROUNDS_PER_LEVEL,
            batch_size: DEFAULT_BATCH_SIZE,
            decision_threshold: DEFAULT_DECISION_THRESHOLD,
            max_level: DEFAULT_MAX_LEVEL,
        }
    }
}

} // verus!
