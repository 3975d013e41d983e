//! A recursive filesystem-search library: parallel-walk decision logic,
//! pattern matching with smart case, entry filtering, an adaptive
//! buffer-versus-stream delivery state machine, and command-template
//! substitution for running a program on each match.
//!
//! Directory listing, threads, the clock and process spawning live with the
//! caller; this crate holds the decisions and proves them.

pub mod args;
pub mod buffer;
pub mod cmd;
pub mod config;
pub mod exclude;
pub mod filter;
pub mod pattern;
pub mod strutil;
pub mod walk;

use vstd::prelude::*;

verus! {

/// The three booleans a caller needs to compute the process exit status.
pub struct RunStatus {
    /// A fatal error before any traversal began (bad pattern, bad template).
    pub startup_error: bool,
    /// Some entry or subtree was skipped because of an I/O error.
    pub traversal_error: bool,
    /// Some dispatched command failed to spawn or exited unsuccessfully.
    pub command_failure: bool,
}

impl RunStatus {
    /// A fresh status: nothing has gone wrong yet.
    pub fn new() -> (r: RunStatus)
        ensures
            !r.startup_error,
            !r.traversal_error,
            !r.command_failure,
    {
        RunStatus { startup_error: false, traversal_error: false, command_failure: false }
    }

    /// The run as a whole succeeded iff no error of any kind was recorded.
    pub fn is_success(&self) -> (r: bool)
        ensures
            r == (!self.startup_error && !self.traversal_error && !self.command_failure),
    {
        !self.startup_error && !self.traversal_error && !self.command_failure
    }
}

} // verus!
