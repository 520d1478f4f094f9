//! The upstream: what is sent to it, and how its replies are read.

pub mod error;
pub mod digest;
pub mod http;
pub mod client;
pub mod frames;
pub mod executor;
pub mod laws;
pub mod run_laws;
pub mod client_laws;
