//! Configuration.

pub mod cli;
pub mod file;
pub mod laws;

pub use file::{FileConfig, FileConfigError};
