//! One upstream backend: endpoint identity, weight, and a stable hash key.

use vstd::prelude::*;

use crate::addr::{endpoint_bytes, endpoint_to_bytes, parse_endpoint, Endpoint};
use crate::errors::ConfigError;
use crate::hashing::{fnv1a64, fnv1a64_spec};
use vstd::string::StringSliceAdditionalSpecFns;

verus! {

/// One upstream: a socket endpoint, an integer weight, and a 64-bit hash key
/// derived from the canonical endpoint text.
///
/// Two backends are the same backend exactly when their endpoints are equal;
/// the weight does not take part in identity.
#[derive(Clone, Copy, Debug, Hash)]
pub struct Backend {
    pub addr: Endpoint,
    pub weight: u16,
    pub hash_key: u64,
}

impl Backend {
    /// Well-formed: positive weight, and the hash key is the FNV-1a hash of
    /// the canonical endpoint text.
    pub open spec fn wf(self) -> bool {
        &&& self.weight >= 1
        &&& self.hash_key == fnv1a64_spec(endpoint_bytes(self.addr))
    }

    /// Parses `addr_text` as a canonical `a.b.c.d:port` endpoint and returns
    /// a backend of weight 1 for it. Rejects every other string.
    pub fn new(addr_text: &str) -> (r: Result<Backend, ConfigError>)
        ensures
            r is Ok ==> ({
                let b = r->Ok_0;
                &&& b.wf()
                &&& b.weight == 1
                &&& addr_text.spec_bytes() == endpoint_bytes(b.addr)
            }),
            r is Err ==> r->Err_0 == ConfigError::InvalidAddress,
            forall|e: Endpoint| addr_text.spec_bytes() == endpoint_bytes(e) ==> r is Ok,
    {
        let bytes = addr_text.as_bytes();
        match parse_endpoint(bytes) {
            Some(endpoint) => {
                let canonical = endpoint_to_bytes(&endpoint);
                let hash_key = fnv1a64(canonical.as_slice());
                Ok(Backend { addr: endpoint, weight: 1, hash_key })
            },
            None => Err(ConfigError::InvalidAddress),
        }
    }

    /// Builds the backend for an already-parsed endpoint.
    pub fn from_endpoint(addr: Endpoint, weight: u16) -> (r: Backend)
        requires
            weight >= 1,
        ensures
            r.wf(),
            r.addr == addr,
            r.weight == weight,
    {
        let canonical = endpoint_to_bytes(&addr);
        let hash_key = fnv1a64(canonical.as_slice());
        Backend { addr, weight, hash_key }
    }
}

impl PartialEq for Backend {
    /// Backends are equal exactly when their endpoints are equal.
    fn eq(&self, other: &Backend) -> (r: bool) {
        self.addr.ip == other.addr.ip && self.addr.port == other.addr.port
    }
}

impl vstd::std_specs::cmp::PartialEqSpecImpl for Backend {
    open spec fn obeys_eq_spec() -> bool {
        true
    }

    open spec fn eq_spec(&self, other: &Backend) -> bool {
        self.addr == other.addr
    }
}

impl Eq for Backend {

}

/// Every backend in the sequence is well-formed.
pub open spec fn all_wf(backends: Seq<Backend>) -> bool {
    forall|i: int| 0 <= i < backends.len() ==> (#[trigger] backends[i]).wf()
}

/// The backends are strictly ordered by endpoint (so also duplicate-free).
pub open spec fn strictly_ordered(backends: Seq<Backend>) -> bool {
    forall|i: int, j: int|
        0 <= i < j < backends.len() ==> (#[trigger] backends[i]).addr.order_key()
            < (#[trigger] backends[j]).addr.order_key()
}

} // verus!
