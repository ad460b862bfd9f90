//! A memory-bandwidth benchmark: a fork-join triad kernel and a percentile
//! summary of the throughput samples it produces.

pub mod triad;
pub mod percentile;
pub mod driver;
