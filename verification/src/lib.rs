//! Core of a TLS-terminating stash server: argument and configuration
//! parsing, the log pipeline, line framing, the per-connection protocol
//! state machine with its response codec, the principal and stash caches,
//! the audit record, and the small state machines behind the acceptor, the
//! TLS handshake and the task registry.
//!
//! Everything here is free of I/O. A front end feeds it bytes, rows and
//! readiness events and performs the actions it returns.

pub mod args;
pub mod config;
pub mod text;
pub mod frontend;
pub mod info;
pub mod log;
pub mod tasks;
