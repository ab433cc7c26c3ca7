//! The RESP2 wire protocol.

pub mod encoder;
pub mod frame;
pub mod lines;
pub mod parser;
pub mod reader;
pub mod words;
