//! A workload-orchestration core for distributed-systems correctness testing.
//!
//! The crate drives a cluster under test with a composable stream of
//! key-value operations, optionally injects faults (nemeses), records a
//! totally ordered history of invocations and results, and prepares that
//! history for an external transactional-consistency checker.

pub mod checker;
pub mod clj;
pub mod client;
pub mod context;
pub mod controller;
pub mod generator;
pub mod history;
pub mod json;
pub mod nemesis;
pub mod op;
pub mod orchestrator;
pub mod random;
pub mod utils;
