//! The engine's resolved configuration.
//!
//! Reading and writing the on-disk configuration file is the caller's
//! concern: the engine receives a single resolved storage location.

use vstd::prelude::*;

verus! {

/// The resolved configuration: where the feed store lives.
#[derive(Debug, Clone)]
pub struct Config {
    /// Path to the database file.
    pub database_path: String,
}

impl Config {
    /// A configuration pointing at the given storage location.
    pub fn new(database_path: String) -> (c: Config)
        ensures
            c.database_path == database_path,
    {
        Config { database_path }
    }
}

} // verus!
