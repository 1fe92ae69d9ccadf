//! Per-process memory monitoring: the sampling history, the identity cache,
//! the control protocol and the tab-separated export.
//!
//! The daemon samples the processes once a second and keeps the last
//! samples in a bounded history. A client talks to it over a local socket.
//! What is decided here is decided on plain values: reading the clock, the
//! process table, the socket and the file system is left to the caller.

pub mod control;
pub mod csvdump;
pub mod daemon;
pub mod history;
pub mod ipc_common;
pub mod parsetime;
pub mod process;
pub mod text;
