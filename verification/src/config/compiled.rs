//! What was fixed of the configuration when the program was built.

use vstd::prelude::*;

verus! {

/// The configuration file and the directories named at build time.
#[derive(Debug)]
pub struct Compiled {
    pub config: Option<String>,
    pub data_dir: Option<String>,
    pub temp_dir: Option<String>,
}

impl Compiled {
    /// The values named at build time.
    pub fn new(config: Option<String>, data_dir: Option<String>, temp_dir: Option<String>) -> (compiled:
        Compiled)
        ensures
            compiled.config == config,
            compiled.data_dir == data_dir,
            compiled.temp_dir == temp_dir,
    {
        Compiled { config, data_dir, temp_dir }
    }
}

} // verus!
