//! Shutdown policy: what ends a session, and the process exit status each
//! cause earns.

use vstd::prelude::*;

verus! {

/// Why the session is shutting down.
#[derive(Debug, Clone, Copy, PartialEq, Eq)]
pub enum ShutdownReason {
    /// The child process exited.
    ChildExited,
    /// The PTY read side reached end of file: the shell is gone.
    PtyEof,
    /// The PTY read side failed.
    PtyReadError,
    /// A headless session received an interrupt.
    Interrupt,
}

/// The exit status for a shutdown cause: failures of the PTY read side exit
/// with 1, every orderly end with 0.
pub open spec fn spec_exit_code(r: ShutdownReason) -> i32 {
    match r {
        ShutdownReason::PtyReadError => 1,
        _ => 0,
    }
}

/// The process exit status for a shutdown cause.
pub fn exit_code_for(r: &ShutdownReason) -> (c: i32)
    ensures
        c == spec_exit_code(*r),
{
    match r {
        ShutdownReason::PtyReadError => 1,
        _ => 0,
    }
}

} // verus!
