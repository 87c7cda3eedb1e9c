//! A passthrough TCP/HTTP relay core: per-connection capture of
//! request/response exchanges, `Host` header rewriting toward a configured
//! upstream, and a bounded rolling history of completed exchanges.
//!
//! The socket, thread-pool and display plumbing around this library does the
//! reading and writing; everything that decides or computes lives here.

pub mod exchange;
pub mod history;
pub mod relay;
pub mod style;
pub mod text;
