//! The OpenCode server: its protocol, how it is started and what it is asked.

pub mod client;
pub mod error;
pub mod json;
pub mod server;
pub mod sse;
pub mod types;
