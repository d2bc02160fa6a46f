//! The library's error values. The surrounding program converts errors of
//! outside origin into these, carrying their rendered message.

use vstd::prelude::*;

verus! {

/// What can go wrong around a session.
#[derive(Debug, Clone, PartialEq, Eq)]
pub enum RwShellError {
    /// An I/O failure, by its message.
    Io(String),
    /// A transport failure, by its message.
    WebSocket(String),
    /// A malformed frame or inner object.
    Json(String),
    /// A PTY operation failed.
    Pty(String),
    /// A failure of the serving side.
    Server(String),
    /// A failure of the attach client.
    Client(String),
    /// A session URL that cannot be understood.
    InvalidUrl(String),
    /// The peer went away.
    ConnectionClosed,
}

} // verus!
