//! The command line: the global verbosity flag and the subcommands.

use vstd::prelude::*;

verus! {

/// The parsed command line.
#[derive(Debug, Clone, PartialEq)]
pub struct Cli {
    /// Detailed (debug) output.
    pub verbose: bool,
    /// The subcommand to run.
    pub command: Commands,
}

/// The subcommands.
#[derive(Debug, Clone, PartialEq)]
pub enum Commands {
    /// Create `.da/config.toml` interactively.
    Init,
    /// Build and transfer to the remote host.
    Deploy {
        /// Show the plan without doing anything destructive.
        dry_run: bool,
    },
    /// Restore the remote backup taken before the last deploy.
    Undo {
        /// Backup id (for example `20260625-143000`); the newest by default.
        id: Option<String>,
        /// Show what would be restored without changing anything.
        dry_run: bool,
    },
    /// Download and install the latest GitHub release.
    Upgrade {
        /// Reinstall even when already on the latest version.
        force: bool,
    },
}

} // verus!
