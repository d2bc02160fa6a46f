//! Core of a web terminal-sharing session: the verified session multiplexer.
//!
//! A child process runs attached to a pseudo-terminal (PTY); its output is
//! fanned out to any number of connected web clients, client input is funneled
//! back into the PTY, and window-size changes are validated, rate limited and
//! announced. This crate holds the decision logic of that multiplexer —
//! replay buffering, the attach handshake, read-only and headless gating,
//! resize debouncing, and the wire codec — each function with a contract.
//! The surrounding I/O (PTY syscalls, sockets, timers) lives outside.

pub mod args;
pub mod b64;
pub mod client;
pub mod codec;
pub mod error;
pub mod frames;
pub mod laws;
pub mod lifecycle;
pub mod parse;
pub mod pty;
pub mod server;
pub mod session;
pub mod size;
pub mod text;
