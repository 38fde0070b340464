//! Weighted random selection: the starting offset is drawn from a
//! generator seeded from the backend snapshot.

use vstd::prelude::*;

use crate::backend::{all_wf, Backend};
use crate::errors::ConfigError;
use crate::strategy::weighted::{Algorithm, WeightedSelector};

verus! {

/// The selector built by [`Random`].
pub type RandomSelector = WeightedSelector;

/// The weighted random strategy.
#[derive(Clone, Copy, PartialEq, Eq, Structural, Debug, Default)]
pub struct Random;

impl Random {
    /// Builds the weighted selector whose draws come from a snapshot-seeded
    /// generator.
    pub fn build_backend_selector(&self, backends: Vec<Backend>) -> (r: Result<
        RandomSelector,
        ConfigError,
    >)
        requires
            all_wf(backends@),
        ensures
            r is Ok ==> r->Ok_0.wf() && r->Ok_0.backends@ == backends@ && r->Ok_0.algorithm
                == Algorithm::Random,
            r is Ok <==> backends@.len() <= 0xFFFF && crate::strategy::weighted::total_weight(
                backends@,
            ) <= crate::strategy::weighted::MAX_WEIGHT_ENTRIES as int,
            r is Err ==> r->Err_0 == ConfigError::TooManyWeightEntries,
    {
        WeightedSelector::new(backends, Algorithm::Random)
    }
}

} // verus!
