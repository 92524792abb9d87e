//! The command line: `clarion install` and `clarion analyze`.

use vstd::prelude::*;

verus! {

/// Parsed command line.
pub struct Cli {
    pub command: Command,
}

/// The subcommands.
pub enum Command {
    /// Initialise `.clarion/` in a directory.
    Install {
        /// Overwrite an existing `.clarion/` (not implemented yet).
        force: bool,
        /// Directory to install into (default: the current directory).
        path: String,
    },
    /// Run an analysis pass over a directory (default: the current
    /// directory).
    Analyze { path: String },
}

} // verus!
