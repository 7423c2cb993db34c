//! The command surface: which subcommand was asked for, as plain data.
//!
//! The binary around the library parses its arguments and hands over a
//! value of these types; the library itself never reads the command line.

use vstd::prelude::*;

verus! {

/// A parsed invocation: at most one subcommand.
pub struct Cli {
    pub command: Option<Commands>,
}

/// The two subcommands: create a workspace, or edit its settings.
pub enum Commands {
    /// Create a new game workspace with the required directory structure.
    New { name: String },
    /// Open the interactive editor on the workspace's configuration.
    Settings { name: String },
}

} // verus!
