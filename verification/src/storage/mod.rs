//! The storage layer.

pub mod adaptive_climb;
pub mod engine;
pub mod entry;
pub mod eviction;
pub mod expire;
pub mod keyspace;
pub mod queue;
pub mod sieve;
