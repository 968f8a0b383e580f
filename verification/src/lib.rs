//! Instance batching: groups per-item records that share a two-level key into
//! contiguous batches, so that a consumer handles one batch per key pair.

pub mod batch;
pub mod bundle;
pub mod grouping;
mod hashing;
pub mod merge;
pub mod state;
pub mod store;
pub mod stream;
