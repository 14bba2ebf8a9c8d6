//! Latency measurement library: a worker's phase-timed probe protocol and an
//! orchestrator that samples a set of workers repeatedly and aggregates the
//! results.
//!
//! Durations are carried as whole nanoseconds so that every timing rule can be
//! stated and checked exactly; the boundary code converts wall-clock readings
//! to and from this representation.

pub mod average;
pub mod codec;
pub mod jobs;
pub mod runtime;
pub mod types;
pub mod worker;
