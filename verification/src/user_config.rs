//! Where finished mosaics go.

use vstd::prelude::*;
use vstd::string::*;

verus! {

/// The directory that holds the configuration file.
pub const CONFIGDIR: &'static str = ".";

/// The name of the configuration file.
pub const USERCONFIG: &'static str = "config.yml";

/// The directories that a user sets up for finished mosaics.
#[derive(Debug, Clone)]
pub struct Config {
    /// Where finished mosaics are stored.
    pub completed: String,
    /// Where stored mosaics are backed up. It must differ from `completed`.
    pub backup: String,
}

impl Config {
    /// Whether the two directories differ, as they must.
    pub fn is_consistent(&self) -> (ok: bool)
        ensures
            ok == (self.completed@ != self.backup@),
    {
        !(self.completed == self.backup)
    }
}

impl Default for Config {
    /// The configuration of a fresh setup: `completed` and `backup` below
    /// the working directory.
    fn default() -> (config: Self)
        ensures
            config.completed@ == "completed"@,
            config.backup@ == "backup"@,
    {
        Config { completed: String::from_str("completed"), backup: String::from_str("backup") }
    }
}

} // verus!
