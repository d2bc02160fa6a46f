//! The handler interface a PTY presents to the session, and the discarding
//! implementation used for read-only endpoints.

use vstd::prelude::*;
use crate::error::RwShellError;

verus! {

/// What the session asks of a PTY: accept bytes, and repaint on demand.
/// Implementations around a real PTY do I/O and live outside the library.
pub trait PtyHandler {
    /// Write bytes, returning how many were accepted.
    fn write(&mut self, data: &[u8]) -> Result<usize, RwShellError>;

    /// Ask the terminal to repaint.
    fn refresh(&mut self) -> Result<(), RwShellError>;
}

/// A PTY handler that discards writes — the sink behind a read-only session.
#[derive(Debug, Clone, Copy, PartialEq, Eq)]
pub struct NilPty;

impl PtyHandler for NilPty {
    fn write(&mut self, data: &[u8]) -> Result<usize, RwShellError> {
        Ok(data.len())
    }

    fn refresh(&mut self) -> Result<(), RwShellError> {
        Ok(())
    }
}

} // verus!
