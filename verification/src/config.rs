//! The user's configuration.
use vstd::prelude::*;

verus! {

/// The configuration: the directories searched for repositories.
#[derive(Debug)]
pub struct Config {
    /// The roots of the search, as paths.
    pub roots: Vec<String>,
}

impl Config {
    /// The configuration that initialisation writes: no roots yet.
    pub fn initial() -> (config: Config)
        ensures
            config.roots@.len() == 0,
    {
        Config { roots: Vec::new() }
    }
}

} // verus!
