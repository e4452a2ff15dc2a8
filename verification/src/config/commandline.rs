//! What the command line says of the configuration.

use vstd::prelude::*;

verus! {

/// The values of the command line's options and the archives it names.
#[derive(Debug)]
pub struct CommandLine {
    pub archives: Option<Vec<String>>,
    pub config: Option<String>,
    pub data_dir: Option<String>,
    pub temp_dir: Option<String>,
    pub target_dir: Option<String>,
    pub extractor: Option<String>,
    pub profile: Option<String>,
}

impl CommandLine {
    /// The command line as it was read: the archives it names, and the
    /// value of each option that it sets.
    pub fn current(
        archives: Vec<String>,
        config: Option<String>,
        data_dir: Option<String>,
        temp_dir: Option<String>,
        target_dir: Option<String>,
        extractor: Option<String>,
        profile: Option<String>,
    ) -> (line: CommandLine)
        ensures
            line.archives == Some(archives),
            line.config == config,
            line.data_dir == data_dir,
            line.temp_dir == temp_dir,
            line.target_dir == target_dir,
            line.extractor == extractor,
            line.profile == profile,
    {
        CommandLine {
            archives: Some(archives),
            config,
            data_dir,
            temp_dir,
            target_dir,
            extractor,
            profile,
        }
    }
}

} // verus!
