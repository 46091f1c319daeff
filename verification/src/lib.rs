//! A batch fan-out/fan-in fetch harness: a fixed batch of independent GET
//! requests runs concurrently, each request reports the byte size of its
//! response body (or `-1` on any failure), and the reports are reassembled
//! into a dense result array keyed by each request's original index.
//!
//! The verified core is the per-request outcome decision and the
//! index-based reassembly; the network and task-spawning glue around it
//! hands this library plain values and takes plain values back.

pub mod batch;
pub mod collect;
