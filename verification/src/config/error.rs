//! What can be wrong with a configuration.

use vstd::prelude::*;

verus! {

/// Why no configuration could be made.
#[derive(Debug, PartialEq, Eq, Clone, Copy, Structural)]
pub enum ConfigError {
    /// No configuration file was named.
    NoConfig,
    /// No source holds a catalog of extractors.
    NoExtractors,
    /// No source holds a catalog of profiles.
    NoProfiles,
    /// No source names a temporary or a target directory.
    NoTemp,
}

impl ConfigError {
    /// The error in words.
    pub fn description(&self) -> (text: &'static str)
        ensures
            *self == ConfigError::NoConfig ==> text@ == "no configuration file was provided"@,
            *self == ConfigError::NoExtractors ==> text@
                == "no extractors where provided in the config file"@,
            *self == ConfigError::NoProfiles ==> text@
                == "no profiles where provided in the config file"@,
            *self == ConfigError::NoTemp ==> text@
                == "no temp or target directory was provided in the config file"@,
    {
        match self {
            ConfigError::NoConfig => "no configuration file was provided",
            ConfigError::NoExtractors => "no extractors where provided in the config file",
            ConfigError::NoProfiles => "no profiles where provided in the config file",
            ConfigError::NoTemp => "no temp or target directory was provided in the config file",
        }
    }
}

} // verus!
