//! Weighted FNV key hashing: stable for a given key while the expanded
//! array is unchanged.

use vstd::prelude::*;

use crate::backend::{all_wf, Backend};
use crate::errors::ConfigError;
use crate::strategy::weighted::{Algorithm, WeightedSelector};

verus! {

/// The selector built by [`FNVHash`].
pub type FNVHashSelector = WeightedSelector;

/// The weighted FNV-hash strategy.
#[derive(Clone, Copy, PartialEq, Eq, Structural, Debug)]
pub struct FNVHash;

impl FNVHash {
    /// Builds the weighted selector that hashes request keys with FNV-1a.
    pub fn build_backend_selector(&self, backends: Vec<Backend>) -> (r: Result<
        FNVHashSelector,
        ConfigError,
    >)
        requires
            all_wf(backends@),
        ensures
            r is Ok ==> r->Ok_0.wf() && r->Ok_0.backends@ == backends@ && r->Ok_0.algorithm
                == Algorithm::FNVHash,
            r is Ok <==> backends@.len() <= 0xFFFF && crate::strategy::weighted::total_weight(
                backends@,
            ) <= crate::strategy::weighted::MAX_WEIGHT_ENTRIES as int,
            r is Err ==> r->Err_0 == ConfigError::TooManyWeightEntries,
    {
        WeightedSelector::new(backends, Algorithm::FNVHash)
    }
}

} // verus!
