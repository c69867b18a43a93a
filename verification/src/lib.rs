//! Content hashing of file populations under bounded buffers and descriptors.
//!
//! The crate holds the decision logic of three hashing engines: a batched
//! engine that keeps many reads in flight per worker, a single-request engine
//! that reads one chunk at a time, and a throttled tree walker. The caller
//! performs the reads and hands their outcomes to the engines.

pub mod batched;
pub mod buffer_pool;
pub mod digest;
pub mod in_flight;
pub mod runs;
pub mod single_request;
pub mod types;
pub mod walker;
pub mod work_source;
pub mod worker_invariants;
