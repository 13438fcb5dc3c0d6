//! Progress-tracking core of a cyclic dataflow engine.
//!
//! Independent dataflow operators agree, without a central coordinator, on
//! which logical timestamps can still produce data.  The crate provides the
//! timestamp/summary model, the delta-ledger and frontier bookkeeping, the
//! operator contract that every vertex satisfies, and the two primitive
//! operators (feedback and external input) that the rest of a dataflow
//! system composes.

pub mod timestamp;
pub mod change_batch;
pub mod frontier;
pub mod antichain;
pub mod channels;
pub mod graph;
pub mod operate;
pub mod feedback;
pub mod input;
