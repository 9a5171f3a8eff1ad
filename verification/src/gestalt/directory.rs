//! Where the region files of a save lie.

use crate::config::Configuration;
use vstd::prelude::*;
use vstd::string::StringExecFns;

verus! {

pub type List = Vec<String>;

/// The directories to walk, by dimension.
pub struct WorldFile {
    pub overworld: List,
    pub nether: List,
    pub the_end: List,
}

/// The region directories of the save that `config` names: that of the
/// overworld, of the nether and of the end, each below the save's root.
pub fn region_files(config: &Configuration) -> (bundle: WorldFile)
    requires
        config.save_root.chosen().is_some(),
    ensures
        bundle.overworld@.len() == 1,
        bundle.overworld@[0]@ == config.save_root.chosen().unwrap()@ + "/region"@,
        bundle.nether@.len() == 1,
        bundle.nether@[0]@ == config.save_root.chosen().unwrap()@ + "/DIM-1/region"@,
        bundle.the_end@.len() == 1,
        bundle.the_end@[0]@ == config.save_root.chosen().unwrap()@ + "/DIM1/region"@,
{
    let mut bundle = WorldFile { overworld: Vec::new(), nether: Vec::new(), the_end: Vec::new() };
    if let Some(base) = config.save_root.value() {
        bundle.overworld.push(base.clone().concat("/region"));
        bundle.nether.push(base.clone().concat("/DIM-1/region"));
        bundle.the_end.push(base.clone().concat("/DIM1/region"));
    }
    bundle
}

} // verus!
