//! The engine that is to replace the walker: it takes a configuration and,
//! so far, does no work for a search.

use crate::config::{Command, Configuration};
use crate::nbt;
use vstd::prelude::*;
use vstd::string::StringExecFns;

verus! {

#[derive(Debug, PartialEq, Eq)]
pub enum Error {
    Search(nbt::query::Error),
}

impl Error {
    /// The error in words.
    pub fn message(&self) -> (s: String)
        ensures
            s@ == "error"@,
    {
        String::from_str("error")
    }
}

pub type FileList = Option<Vec<String>>;

/// The region files of the three dimensions, where they are known.
pub struct RegionManager {
    pub overworld: FileList,
    pub the_end: FileList,
    pub nether: FileList,
}

pub struct Engine {}

/// Runs the search that `config` asks for. The engine lists nothing yet:
/// the command has to be a search.
pub fn run(config: Configuration) -> (r: Result<(), Error>)
    requires
        config.command.chosen() matches Some(Command::Search(_)),
    ensures
        r is Ok,
{
    let mut engine = Engine::new(&config);
    engine.search(config)
}

impl Engine {
    pub fn search(&mut self, config: Configuration) -> (r: Result<(), Error>)
        ensures
            r is Ok,
    {
        Ok(())
    }

    pub fn new(config: &Configuration) -> Engine {
        Engine {  }
    }
}

} // verus!
