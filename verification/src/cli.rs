//! The commands the package manager understands.

use vstd::prelude::*;

verus! {

/// The parsed command line.
#[derive(Debug)]
pub struct Cli {
    pub command: Option<Commands>,
    pub verbose: bool,
    pub assume_yes: bool,
}

/// A command and its arguments.
#[derive(Debug)]
pub enum Commands {
    Install { package: String, use_ai: bool },
    Remove { package: String },
    Update { package: Option<String> },
    Search { query: String },
    List,
    Doctor,
    Add { name: String, repo: String, version: String, description: String, license: String },
    Init,
    Clean,
    Info { package: String },
    Verify { package: String },
    Outdated,
    Show { package: String },
    Rollback { action: RollbackAction },
}

/// What to do with rollback points.
#[derive(Debug)]
pub enum RollbackAction {
    List,
    Show { id: String },
}

} // verus!
