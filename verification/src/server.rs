//! What the server program is asked to do.

use std::path::PathBuf;
use vstd::prelude::*;

verus! {

/// What the server was called with.
#[derive(Debug)]
pub struct Opts {
    /// Silence all output.
    pub quiet: bool,
    /// How often more output was asked for.
    pub verbose: usize,
    pub subcmd: SubCommand,
}

/// The operations of the server.
#[derive(Debug)]
pub enum SubCommand {
    /// Start all (or just some) of the server components.
    Start(ComponentListing),
    /// Stop all (or just some) of the server components.
    Stop(ComponentListing),
    /// Add a new package to be served.
    Add(AddPackage),
}

/// The components that an operation leaves out.
#[derive(Clone, Copy, Debug, PartialEq, Eq, Structural)]
pub struct ComponentListing {
    /// Ignore the seeder component.
    pub no_seeder: bool,
    /// Ignore the database component.
    pub no_database: bool,
    /// Ignore the tracker component.
    pub no_tracker: bool,
}

/// The packages to add.
#[derive(Debug)]
pub struct AddPackage {
    /// Paths to all the packages to add.
    pub package_paths: Vec<PathBuf>,
}

} // verus!
