//! The web dashboard: a small JSON interface over HTTP/1.1.
//!
//! Everything but the socket is here: reading a request, routing it, and
//! writing the response.

pub mod console;
pub mod documents;
pub mod exchange;
pub mod form;
pub mod json;
pub mod laws;
pub mod message;
pub mod routes;
