//! The command line: what the user asks the program to do.

use vstd::prelude::*;

verus! {

/// The parsed command line.
pub struct Cli {
    pub command: Commands,
}

/// The commands of the program.
pub enum Commands {
    /// Trigger a manual sync for an account
    Sync {
        /// Account name to sync (optional, syncs all if not specified)
        account: Option<String>,
    },
    /// List events within a time range
    ListEvents {
        /// Start time (ISO 8601 format)
        start: String,
        /// End time (ISO 8601 format)
        end: String,
    },
    /// Run as daemon (D-Bus service)
    Daemon,
}

} // verus!
