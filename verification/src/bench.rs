//! Shared measurement machinery and the benchmark programs' decisions: their
//! command lines, workloads, sampling, and the comparison with SQL stores.
//!
//! Percentiles come from raw sample arrays via the nearest-rank method (no
//! interpolation, no fitting).
pub mod bus;
pub mod compare;
pub mod e2e;
pub mod feed;
pub mod live;
pub mod loadgen;
pub mod lob;
pub mod options;
pub mod pacing;
pub mod parity;
pub mod percentile;
pub mod results;
pub mod store;
