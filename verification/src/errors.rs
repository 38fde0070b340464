//! Configuration errors surfaced when a route or a selector is built.

use vstd::prelude::*;

verus! {

/// A fatal configuration error, reported to the builder caller.
#[derive(Clone, Copy, PartialEq, Eq, Structural, Debug)]
pub enum ConfigError {
    /// A backend address that is not a canonical `a.b.c.d:port` endpoint.
    InvalidAddress,
    /// A route was given no backends.
    EmptyBackendSet,
    /// The weighted expansion of the backend set exceeds 2^16 entries.
    TooManyWeightEntries,
    /// A route path that fails the pattern rules.
    InvalidPathPattern,
}

impl ConfigError {
    /// A human-readable description of the error.
    pub fn message(&self) -> (r: String)
        ensures
            self is InvalidAddress ==> r@ == "Invalid backend address"@,
            self is EmptyBackendSet ==> r@ == "Must provide at least one backend"@,
            self is TooManyWeightEntries ==> r@
                == "support up to 2^16 weighted backend entries"@,
            self is InvalidPathPattern ==> r@
                == "Invalid path, it must start with '/', have at most one * and any eventual * must be at the end of the string"@,
    {
        match self {
            ConfigError::InvalidAddress => "Invalid backend address".to_owned(),
            ConfigError::EmptyBackendSet => "Must provide at least one backend".to_owned(),
            ConfigError::TooManyWeightEntries => "support up to 2^16 weighted backend entries".to_owned(),
            ConfigError::InvalidPathPattern => {
                "Invalid path, it must start with '/', have at most one * and any eventual * must be at the end of the string".to_owned()
            },
        }
    }
}

} // verus!
