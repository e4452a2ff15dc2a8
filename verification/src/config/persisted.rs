//! What the configuration file says of the configuration.

use vstd::prelude::*;

use crate::dict::Dict;
use crate::extractor::Extractor;
use crate::profile::Profile;

verus! {

/// The catalogs of a configuration file.
#[derive(Debug)]
pub struct Persisted {
    pub extractors: Option<Dict<Extractor>>,
    pub profiles: Option<Dict<Profile>>,
}

impl Persisted {
    /// A configuration file's catalogs.
    pub fn new(extractors: Option<Dict<Extractor>>, profiles: Option<Dict<Profile>>) -> (persisted:
        Persisted)
        ensures
            persisted.extractors == extractors,
            persisted.profiles == profiles,
    {
        Persisted { extractors, profiles }
    }
}

} // verus!
