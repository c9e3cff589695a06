//! What the client program is asked to do, and where it finds its data.

use std::path::PathBuf;
use vstd::prelude::*;
use vstd::string::StringExecFns;

verus! {

/// What the client was called with.
#[derive(Debug)]
pub struct Opts {
    pub subcmd: SubCommand,
}

/// The operations of the client.
#[derive(Debug)]
pub enum SubCommand {
    /// Sync the package listing with the server.
    Sync,
    /// Install the listed packages.
    Install(Packages),
    /// Remove the installed packages.
    Remove(Packages),
    /// List packages.
    List(ListOpts),
    /// Search the packages in the local listing.
    Search(SearchQuery),
}

/// The packages to operate on.
#[derive(Debug)]
pub struct Packages {
    pub packages: Vec<PathBuf>,
}

/// What to list.
#[derive(Debug)]
pub struct ListOpts {
    /// List only installed packages instead of all available.
    pub installed: bool,
}

/// The terms that narrow a package search.
#[derive(Debug)]
pub struct SearchQuery {
    pub query_terms: Vec<String>,
}

/// The two package databases of the client.
#[derive(Clone, Copy, Debug, PartialEq, Eq, Structural)]
pub enum Database {
    /// The listing of all packages, as synced from the server.
    Available,
    /// The packages that are installed.
    Installed,
}

/// What to do when a database that is opened does not exist.
#[derive(Clone, Copy, Debug, PartialEq, Eq, Structural)]
pub enum MissingAction {
    RaiseError,
    Create,
}

impl Database {
    /// What opening the database does when it is missing: the listing of
    /// available packages has to be synced first, the database of
    /// installed packages is created on first use.
    pub fn when_missing(self) -> (action: MissingAction)
        ensures
            action == (match self {
                Database::Available => MissingAction::RaiseError,
                Database::Installed => MissingAction::Create,
            }),
    {
        match self {
            Database::Available => MissingAction::RaiseError,
            Database::Installed => MissingAction::Create,
        }
    }
}

impl ListOpts {
    /// The database that the listing reads.
    pub fn database(&self) -> (database: Database)
        ensures
            database == (if self.installed {
                Database::Installed
            } else {
                Database::Available
            }),
    {
        if self.installed {
            Database::Installed
        } else {
            Database::Available
        }
    }
}

/// The configuration of the client.
#[derive(Debug)]
pub struct Config {
    /// The address of the server that publishes the package listing.
    pub server_url: String,
}

impl Config {
    /// The address from which the package listing is fetched.
    pub fn package_db_url(&self) -> (url: String)
        ensures
            url@ == self.server_url@ + "/packages.db"@,
    {
        self.server_url.clone().concat("/packages.db")
    }
}

} // verus!
