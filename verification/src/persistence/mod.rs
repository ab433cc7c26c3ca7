//! Append-only-file persistence.

pub mod config;
pub mod history;
pub mod laws;
pub mod record;
pub mod replay;
pub mod resp;
pub mod restart;
pub mod wire;
pub mod writer;

pub use config::{AofConfig, FsyncPolicy};
pub use replay::{replay, ReplayStats};
pub use writer::AofWriter;
