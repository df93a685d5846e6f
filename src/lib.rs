//! Stream-cipher encryption offloaded onto a multi-core scratchpad cluster:
//! a double-buffered transfer pipeline, a static per-core work partition and
//! seekable keystream ciphers, all with verified contracts.

pub mod cluster;
pub mod engine;
pub mod error;
pub mod geometry;
pub mod keystream;
pub mod memory;
pub mod pipeline;
pub mod pool;
