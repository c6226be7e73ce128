//! Core of a persistent terminal-session daemon, free of I/O.
//!
//! The crate holds the framed wire protocol, the bounded scrollback ring and
//! the state machines that a session daemon and an attached client run. The
//! code that owns file descriptors feeds these state machines with what it
//! read and carries out what they answer.

pub mod bridge;
pub mod buffer;
pub mod cli;
pub mod event;
pub mod proto;
pub mod request;
pub mod sanitize;
pub mod server;
pub mod session;
