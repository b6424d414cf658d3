//! Orchestration engine for pluggable identification modules.
//!
//! Identification modules are external programs that analyze a shared run
//! workspace and emit decision-model headers (facts). This library holds the
//! verified core of the orchestration: module discovery, the invocation
//! protocol's decisions, the accumulated header store, the fixpoint driver,
//! and the dominance filter that reduces the converged set to its
//! Pareto-maximal subset.

pub mod discovery;
pub mod dominance;
pub mod engine;
pub mod header;
pub mod protocol;
pub mod store;
