//! The host process's configuration, as plain values. Command-line parsing
//! happens outside; the library receives the result in this form.

use vstd::prelude::*;

verus! {

/// The configuration of one session-sharing process.
#[derive(Debug, Clone)]
pub struct Args {
    /// The command to run.
    pub command: String,
    /// The command arguments, space separated.
    pub args: String,
    /// The address to serve on.
    pub listen: String,
    /// Print the version and exit.
    pub version: bool,
    /// Start a read-only session.
    pub readonly: bool,
    /// Don't expect an interactive terminal at stdin.
    pub headless: bool,
    /// Columns of the allocated PTY when running headless.
    pub headless_cols: u16,
    /// Rows of the allocated PTY when running headless.
    pub headless_rows: u16,
    /// Use a random identifier for the session URL instead of `local`.
    pub uuid: bool,
    /// Verbose logging.
    pub verbose: bool,
}

} // verus!
