//! One source's part of the configuration, the merge of two such parts,
//! and the check that makes a configuration of one.

use vstd::prelude::*;

use crate::config::commandline::CommandLine;
use crate::config::compiled::Compiled;
use crate::config::configuration::Configuration;
use crate::config::environment::{first_of, Environment};
use crate::config::error::ConfigError;
use crate::config::persisted::Persisted;
use crate::dict::Dict;
use crate::expansion::{settled, ROUNDS};
use crate::extractor::Extractor;
use crate::naming::{combine_names, combined};
use crate::path::{file_stem, file_stem_of, parent, parent_of};
use crate::profile::Profile;
use crate::text::{push_str, views};

verus! {

/// What one source knows of the configuration. What it does not know is
/// `None`.
#[derive(Debug)]
pub struct Source {
    pub archives: Option<Vec<String>>,
    pub config: Option<String>,
    pub data_dir: Option<String>,
    pub temp_dir: Option<String>,
    pub target_dir: Option<String>,
    pub extractor: Option<String>,
    pub profile: Option<String>,
    pub extractors: Option<Dict<Extractor>>,
    pub profiles: Option<Dict<Profile>>,
}

/// The stems of the file names of `archives`.
pub open spec fn stems(archives: Seq<String>) -> Seq<Seq<char>> {
    archives.map_values(|a: String| file_stem(a@)->0)
}

/// A path as a configuration holds it: the references to environment
/// variables in it resolved until the text no longer changes.
pub open spec fn settled_path(environment: Environment, path: Seq<char>) -> Seq<char> {
    settled(environment.raw(), path, false, ROUNDS as nat)
}

/// Whether the fields of a source hold all that a configuration needs
/// beyond its catalogs and one of its two directories: a configuration
/// file and a data directory; where the target directory has to be derived,
/// at least one archive, each with a file name that has a stem; and where
/// the temporary directory has to be derived, a target directory that lies
/// in some directory.
pub open spec fn complete_of(
    config: Option<String>,
    data_dir: Option<String>,
    temp_dir: Option<String>,
    target_dir: Option<String>,
    archives: Option<Vec<String>>,
    environment: Environment,
) -> bool {
    &&& config is Some
    &&& data_dir is Some
    &&& target_dir is None ==> {
        &&& archives is Some
        &&& archives->0.len() > 0
        &&& forall|i: int|
            0 <= i < archives->0.len() ==> file_stem((#[trigger] archives->0[i])@) is Some
    }
    &&& temp_dir is None && target_dir is Some ==> parent(
        settled_path(environment, target_dir->0@),
    ) is Some
}

/// Whether `complete_of` holds of the fields.
#[verifier::loop_isolation(false)]
pub fn complete_fields(
    config: &Option<String>,
    data_dir: &Option<String>,
    temp_dir: &Option<String>,
    target_dir: &Option<String>,
    archives: &Option<Vec<String>>,
    environment: &Environment,
) -> (ok: bool)
    ensures
        ok == complete_of(*config, *data_dir, *temp_dir, *target_dir, *archives, *environment),
{
    if config.is_none() || data_dir.is_none() {
        return false;
    }
    match target_dir {
        Some(target) => {
            if temp_dir.is_none() {
                let expanded = environment.expand(target.as_str());
                parent_of(expanded.as_str()).is_some()
            } else {
                true
            }
        },
        None => match archives {
            None => false,
            Some(list) => {
                if list.len() == 0 {
                    return false;
                }
                let mut i: usize = 0;
                while i < list.len()
                    invariant
                        i <= list.len(),
                        forall|j: int| 0 <= j < i ==> file_stem((#[trigger] list[j])@) is Some,
                    decreases list.len() - i,
                {
                    if file_stem_of(list[i].as_str()).is_none() {
                        return false;
                    }
                    i += 1;
                }
                true
            },
        },
    }
}

/// The first of two that is there, by reference.
pub fn first_ref<'a, T>(higher: &'a Option<T>, lower: &'a Option<T>) -> (chosen: &'a Option<T>)
    ensures
        *chosen == first_of(*higher, *lower),
{
    if higher.is_some() {
        higher
    } else {
        lower
    }
}

impl Source {
    /// The source that knows nothing.
    pub open spec fn nothing() -> Source {
        Source {
            archives: None,
            config: None,
            data_dir: None,
            temp_dir: None,
            target_dir: None,
            extractor: None,
            profile: None,
            extractors: None,
            profiles: None,
        }
    }

    /// What the command line knows.
    pub open spec fn of_command_line(line: CommandLine) -> Source {
        Source {
            archives: line.archives,
            config: line.config,
            data_dir: line.data_dir,
            temp_dir: line.temp_dir,
            target_dir: line.target_dir,
            extractor: line.extractor,
            profile: line.profile,
            extractors: None,
            profiles: None,
        }
    }

    /// What was fixed at build time.
    pub open spec fn of_compiled(compiled: Compiled) -> Source {
        Source {
            archives: None,
            config: compiled.config,
            data_dir: compiled.data_dir,
            temp_dir: compiled.temp_dir,
            target_dir: None,
            extractor: None,
            profile: None,
            extractors: None,
            profiles: None,
        }
    }

    /// What the configuration file knows.
    pub open spec fn of_persisted(persisted: Persisted) -> Source {
        Source {
            archives: None,
            config: None,
            data_dir: None,
            temp_dir: None,
            target_dir: None,
            extractor: None,
            profile: None,
            extractors: persisted.extractors,
            profiles: persisted.profiles,
        }
    }

    /// What the environment knows.
    pub open spec fn of_environment(environment: Environment) -> Source {
        Source {
            archives: None,
            config: environment.entry("RXR_CONFIG"@),
            data_dir: first_of(
                environment.entry("RXR_DATA_DIR"@),
                environment.entry("XDG_DATA_HOME"@),
            ),
            temp_dir: environment.entry("RXR_TEMP_DIR"@),
            target_dir: environment.entry("RXR_TARGET_DIR"@),
            extractor: environment.entry("RXR_EXTRACTOR"@),
            profile: environment.entry("RXR_PROFILE"@),
            extractors: None,
            profiles: None,
        }
    }

    /// This source before `other`: each field is this source's where it is
    /// set, and `other`'s where it is not.
    pub open spec fn merged(self, other: Source) -> Source {
        Source {
            archives: first_of(self.archives, other.archives),
            config: first_of(self.config, other.config),
            data_dir: first_of(self.data_dir, other.data_dir),
            temp_dir: first_of(self.temp_dir, other.temp_dir),
            target_dir: first_of(self.target_dir, other.target_dir),
            extractor: first_of(self.extractor, other.extractor),
            profile: first_of(self.profile, other.profile),
            extractors: first_of(self.extractors, other.extractors),
            profiles: first_of(self.profiles, other.profiles),
        }
    }

    /// Why no configuration is made of the source, if none is.
    pub open spec fn refusal(self) -> Option<ConfigError> {
        if self.extractors is None {
            Some(ConfigError::NoExtractors)
        } else if self.profiles is None {
            Some(ConfigError::NoProfiles)
        } else if self.temp_dir is None && self.target_dir is None {
            Some(ConfigError::NoTemp)
        } else {
            None
        }
    }

    /// Whether the source holds all that a configuration needs beyond what
    /// `refusal` asks for: a configuration file and a data directory; where
    /// the target directory has to be derived, at least one archive, each
    /// with a file name that has a stem; and where the temporary directory
    /// has to be derived, a target directory that lies in some directory.
    pub open spec fn complete(self, environment: Environment) -> bool {
        complete_of(
            self.config,
            self.data_dir,
            self.temp_dir,
            self.target_dir,
            self.archives,
            environment,
        )
    }

    /// Whether `validate` takes the source: it is complete, or refused.
    pub open spec fn valid(self, environment: Environment) -> bool {
        self.refusal() is None ==> self.complete(environment)
    }

    /// The temporary directory of the configuration: the one that is set,
    /// else the directory that the target directory lies in.
    pub open spec fn temp_text(self, environment: Environment) -> Seq<char> {
        match self.temp_dir {
            Some(temp) => settled_path(environment, temp@),
            None => parent(settled_path(environment, self.target_dir->0@))->0,
        }
    }

    /// The target directory of the configuration: the one that is set, else
    /// the temporary directory, `/`, and the one name made of the stems of
    /// all archives.
    pub open spec fn target_text(self, environment: Environment) -> Seq<char> {
        match self.target_dir {
            Some(target) => settled_path(environment, target@),
            None => settled_path(environment, self.temp_dir->0@) + seq!['/'] + combined(
                stems(self.archives->0@),
            ),
        }
    }

    /// Whether `result` is what `validate` owes for this source.
    pub open spec fn validated(
        self,
        environment: Environment,
        result: Result<Configuration, ConfigError>,
    ) -> bool {
        match result {
            Ok(configuration) => {
                &&& self.refusal() is None
                &&& configuration.archives@ == (match self.archives {
                    Some(archives) => archives@,
                    None => Seq::empty(),
                })
                &&& configuration.config@ == settled_path(environment, self.config->0@)
                &&& configuration.data_dir@ == settled_path(environment, self.data_dir->0@)
                &&& configuration.temp_dir@ == self.temp_text(environment)
                &&& configuration.target_dir@ == self.target_text(environment)
                &&& configuration.extractor == self.extractor
                &&& configuration.profile == self.profile
                &&& configuration.extractors == self.extractors->0
                &&& configuration.profiles == self.profiles->0
            },
            Err(error) => self.refusal() == Some(error),
        }
    }

    /// Whether the source is complete.
    pub fn is_complete(&self, environment: &Environment) -> (ok: bool)
        ensures
            ok == self.complete(*environment),
    {
        complete_fields(
            &self.config,
            &self.data_dir,
            &self.temp_dir,
            &self.target_dir,
            &self.archives,
            environment,
        )
    }

    /// Whether `validate` takes the source.
    pub fn is_valid(&self, environment: &Environment) -> (ok: bool)
        ensures
            ok == self.valid(*environment),
    {
        if self.extractors.is_none() || self.profiles.is_none() || (self.temp_dir.is_none()
            && self.target_dir.is_none()) {
            true
        } else {
            self.is_complete(environment)
        }
    }

    /// The source that knows nothing.
    pub fn new() -> (source: Source)
        ensures
            source == Source::nothing(),
    {
        Source {
            archives: None,
            config: None,
            data_dir: None,
            temp_dir: None,
            target_dir: None,
            extractor: None,
            profile: None,
            extractors: None,
            profiles: None,
        }
    }

    /// What the command line knows.
    pub fn from_command_line(line: CommandLine) -> (source: Source)
        ensures
            source == Source::of_command_line(line),
    {
        Source {
            archives: line.archives,
            config: line.config,
            data_dir: line.data_dir,
            temp_dir: line.temp_dir,
            target_dir: line.target_dir,
            extractor: line.extractor,
            profile: line.profile,
            extractors: None,
            profiles: None,
        }
    }

    /// What was fixed at build time.
    pub fn from_compiled(compiled: Compiled) -> (source: Source)
        ensures
            source == Source::of_compiled(compiled),
    {
        Source {
            archives: None,
            config: compiled.config,
            data_dir: compiled.data_dir,
            temp_dir: compiled.temp_dir,
            target_dir: None,
            extractor: None,
            profile: None,
            extractors: None,
            profiles: None,
        }
    }

    /// What the configuration file knows.
    pub fn from_persisted(persisted: Persisted) -> (source: Source)
        ensures
            source == Source::of_persisted(persisted),
    {
        Source {
            archives: None,
            config: None,
            data_dir: None,
            temp_dir: None,
            target_dir: None,
            extractor: None,
            profile: None,
            extractors: persisted.extractors,
            profiles: persisted.profiles,
        }
    }

    /// What the environment knows.
    pub fn from_environment(environment: &Environment) -> (source: Source)
        ensures
            source == Source::of_environment(*environment),
    {
        Source {
            archives: None,
            config: copy_of(environment.get_config()),
            data_dir: copy_of(environment.get_data_dir()),
            temp_dir: copy_of(environment.get_temp_dir()),
            target_dir: copy_of(environment.get_target_dir()),
            extractor: copy_of(environment.get_extractor()),
            profile: copy_of(environment.get_profile()),
            extractors: None,
            profiles: None,
        }
    }

    /// This source before `other`: what this source sets stays, and what it
    /// leaves open is taken from `other`.
    pub fn merge(self, other: Source) -> (source: Source)
        ensures
            source == self.merged(other),
    {
        Source {
            archives: first(self.archives, other.archives),
            config: first(self.config, other.config),
            data_dir: first(self.data_dir, other.data_dir),
            temp_dir: first(self.temp_dir, other.temp_dir),
            target_dir: first(self.target_dir, other.target_dir),
            extractor: first(self.extractor, other.extractor),
            profile: first(self.profile, other.profile),
            extractors: first(self.extractors, other.extractors),
            profiles: first(self.profiles, other.profiles),
        }
    }

    /// The one name for the archives.
    fn archive_name(archives: &Vec<String>) -> (name: String)
        requires
            forall|i: int| 0 <= i < archives.len() ==> file_stem((#[trigger] archives[i])@) is Some,
        ensures
            name@ == combined(stems(archives@)),
    {
        let mut names: Vec<String> = Vec::new();
        let mut i: usize = 0;
        while i < archives.len()
            invariant
                i <= archives.len(),
                forall|j: int|
                    0 <= j < archives.len() ==> file_stem((#[trigger] archives[j])@) is Some,
                views(names@) == stems(archives@).take(i as int),
            decreases archives.len() - i,
        {
            let ghost before = views(names@);
            match file_stem_of(archives[i].as_str()) {
                Some(stem) => {
                    names.push(stem);
                    assert(views(names@) =~= before.push(stem@));
                    assert(stems(archives@).take(i + 1) =~= stems(archives@).take(i as int).push(
                        stem@,
                    ));
                },
                None => {
                    assert(file_stem(archives[i as int]@) is Some);
                },
            }
            i += 1;
        }
        assert(stems(archives@).take(archives.len() as int) =~= stems(archives@));
        combine_names(&names)
    }

    /// Makes a configuration of the source, or says what is missing: the
    /// catalog of extractors, the catalog of profiles, or both a temporary
    /// and a target directory. Of the two directories the one that is not
    /// set is derived from the other.
    pub fn validate(self, environment: &Environment) -> (result: Result<Configuration, ConfigError>)
        requires
            self.valid(*environment),
        ensures
            self.validated(*environment, result),
    {
        let extractors = match self.extractors {
            Some(extractors) => extractors,
            None => {
                return Err(ConfigError::NoExtractors);
            },
        };
        let profiles = match self.profiles {
            Some(profiles) => profiles,
            None => {
                return Err(ConfigError::NoProfiles);
            },
        };
        if self.temp_dir.is_none() && self.target_dir.is_none() {
            return Err(ConfigError::NoTemp);
        }
        let given_temp = match &self.temp_dir {
            Some(temp) => Some(environment.expand(temp.as_str())),
            None => None,
        };
        let target_dir = match &self.target_dir {
            Some(target) => environment.expand(target.as_str()),
            None => {
                let mut path: Vec<char> = Vec::new();
                match &given_temp {
                    Some(temp) => {
                        push_str(&mut path, temp.as_str());
                    },
                    None => {},
                }
                path.push('/');
                match &self.archives {
                    Some(archives) => {
                        let name = Source::archive_name(archives);
                        push_str(&mut path, name.as_str());
                    },
                    None => {},
                }
                assert(path@ =~= self.target_text(*environment));
                crate::text::from_chars(&path)
            },
        };
        let temp_dir = match given_temp {
            Some(temp) => temp,
            None => match parent_of(target_dir.as_str()) {
                Some(parent) => parent,
                None => String::new(),
            },
        };
        let config = match &self.config {
            Some(config) => environment.expand(config.as_str()),
            None => String::new(),
        };
        let data_dir = match &self.data_dir {
            Some(data_dir) => environment.expand(data_dir.as_str()),
            None => String::new(),
        };
        let archives = match self.archives {
            Some(archives) => archives,
            None => Vec::new(),
        };
        Ok(
            Configuration {
                archives,
                config,
                data_dir,
                temp_dir,
                target_dir,
                extractor: self.extractor,
                profile: self.profile,
                extractors,
                profiles,
            },
        )
    }
}

/// The first of two that is there.
pub fn first<T>(higher: Option<T>, lower: Option<T>) -> (chosen: Option<T>)
    ensures
        chosen == first_of(higher, lower),
{
    match higher {
        Some(value) => Some(value),
        None => lower,
    }
}

/// A copy of the string that was found.
fn copy_of(found: Option<&String>) -> (copy: Option<String>)
    ensures
        copy == crate::config::environment::found_string(found),
{
    match found {
        Some(string) => Some(string.clone()),
        None => None,
    }
}

/// Every field that the first of two sources sets is that of their merge,
/// and every field that it leaves open is taken from the second.
pub proof fn lemma_merge_left_bias(a: Source, b: Source)
    ensures
        a.archives is Some ==> a.merged(b).archives == a.archives,
        a.archives is None ==> a.merged(b).archives == b.archives,
        a.config is Some ==> a.merged(b).config == a.config,
        a.config is None ==> a.merged(b).config == b.config,
        a.data_dir is Some ==> a.merged(b).data_dir == a.data_dir,
        a.data_dir is None ==> a.merged(b).data_dir == b.data_dir,
        a.temp_dir is Some ==> a.merged(b).temp_dir == a.temp_dir,
        a.temp_dir is None ==> a.merged(b).temp_dir == b.temp_dir,
        a.target_dir is Some ==> a.merged(b).target_dir == a.target_dir,
        a.target_dir is None ==> a.merged(b).target_dir == b.target_dir,
        a.extractor is Some ==> a.merged(b).extractor == a.extractor,
        a.extractor is None ==> a.merged(b).extractor == b.extractor,
        a.profile is Some ==> a.merged(b).profile == a.profile,
        a.profile is None ==> a.merged(b).profile == b.profile,
        a.extractors is Some ==> a.merged(b).extractors == a.extractors,
        a.extractors is None ==> a.merged(b).extractors == b.extractors,
        a.profiles is Some ==> a.merged(b).profiles == a.profiles,
        a.profiles is None ==> a.merged(b).profiles == b.profiles,
{
}

/// Merging is associative: sources can be folded in the order of their
/// priority, however the merges are grouped.
pub proof fn lemma_merge_associative(a: Source, b: Source, c: Source)
    ensures
        a.merged(b).merged(c) == a.merged(b.merged(c)),
{
}

/// The source that knows nothing changes no other, on either side.
pub proof fn lemma_merge_nothing(a: Source)
    ensures
        a.merged(Source::nothing()) == a,
        Source::nothing().merged(a) == a,
{
}

} // verus!
