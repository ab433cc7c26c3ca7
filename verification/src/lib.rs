//! FerrumKV: a verified key-value store core.
//!
//! The crate holds the parts of the server that compute: the RESP2 codec, the
//! storage engine with its expiry and eviction rules, the append-only log and
//! its replay, the configuration grammar and the dashboard's request handling.
//! Sockets, files and threads live outside and hand plain values in.

pub mod bytes;
pub mod clock;
pub mod config;
pub mod decimal;
pub mod error;
pub mod network;
pub mod persistence;
pub mod protocol;
pub mod storage;
pub mod text;
