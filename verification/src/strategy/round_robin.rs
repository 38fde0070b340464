//! Weighted round robin: a shared cursor that draws reads and increment,
//! so overlapping requests get distinct starting offsets.

use vstd::prelude::*;

use crate::backend::{all_wf, Backend};
use crate::errors::ConfigError;
use crate::strategy::weighted::{Algorithm, WeightedSelector};

verus! {

/// The selector built by [`RoundRobin`].
pub type RoundRobinSelector = WeightedSelector;

/// The weighted round-robin strategy.
#[derive(Clone, Copy, PartialEq, Eq, Structural, Debug, Default)]
pub struct RoundRobin;

impl RoundRobin {
    /// Builds the weighted selector with a round-robin cursor starting at
    /// zero.
    pub fn build_backend_selector(&self, backends: Vec<Backend>) -> (r: Result<
        RoundRobinSelector,
        ConfigError,
    >)
        requires
            all_wf(backends@),
        ensures
            r is Ok ==> r->Ok_0.wf() && r->Ok_0.backends@ == backends@ && r->Ok_0.algorithm
                == Algorithm::RoundRobin && crate::strategy::weighted::cursor_of(r->Ok_0.draw)
                == 0,
            r is Ok <==> backends@.len() <= 0xFFFF && crate::strategy::weighted::total_weight(
                backends@,
            ) <= crate::strategy::weighted::MAX_WEIGHT_ENTRIES as int,
            r is Err ==> r->Err_0 == ConfigError::TooManyWeightEntries,
    {
        WeightedSelector::new(backends, Algorithm::RoundRobin)
    }
}

} // verus!
