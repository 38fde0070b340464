//! An adaptive load-balancing core.
//!
//! The crate models the selection machinery of an HTTP reverse proxy:
//! backends with weights and health state, six selection strategies behind a
//! uniform interface, per-backend connection and latency metrics, and the
//! decision engine that switches strategies when the metrics diverge.

pub mod adaptive_lb;
pub mod addr;
pub mod backend;
pub mod decision_engine;
pub mod errors;
pub mod hashing;
pub mod load_balancer;
pub mod metrics;
pub mod options;
pub mod registry;
pub mod routes;
pub mod strategy;
pub mod supervisor;

pub use hashing::fnv1a64;
