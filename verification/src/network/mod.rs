//! Serving clients: executing commands, connections and the web dashboard.

pub mod dashboard;
pub mod execute;
pub mod growth;
pub mod laws;
pub mod refusals;
pub mod replies;
pub mod report;
pub mod server;
pub mod settings;
