//! Aggregation engine for block-propagation telemetry.
//!
//! The crate correlates two independently captured telemetry sources for a
//! running block-producing network: raw gossip captures from network-level
//! debuggers, and per-node execution traces from each daemon's internal
//! instrumentation.  It builds per-block propagation graphs and arrival
//! latencies, merges traces and daemon snapshots into per-node block reports,
//! cross-validates the two sources, and maintains streaming per-build
//! statistics with inter-build deltas.
//!
//! All wall-clock quantities are held as integer microseconds: capture-side
//! timestamps and latencies as `u64`, trace-side times (which may be negative
//! relative to a reference point) as `i64`.

pub mod aggregator_ipc;
pub mod block_traces;
pub mod config;
pub mod cross_validation;
pub mod debugger_data;
pub mod error;
pub mod events;
pub mod executor;
pub mod graph;
pub mod locked_btree_map;
pub mod maps;
pub mod nodes;
pub mod remote;
pub mod rpc;
pub mod storage;
pub mod text;

use vstd::prelude::*;

verus! {

/// Outcome type used across the aggregation engine.
pub type AggregatorResult<T> = Result<T, crate::error::AggregatorError>;

} // verus!
