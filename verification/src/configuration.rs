//! The configuration of a run on a single archive.

use vstd::prelude::*;

use crate::config::environment::first_of;
use crate::config::source::{first, first_ref};
use crate::config::{find_last_claiming, last_claiming, lemma_last_claiming};
use crate::dict::Dict;
use crate::expansion::{expand_fully, is_expanded, is_fixed, settled, ROUNDS};
use crate::extractor::Extractor;
use crate::path::{file_name, file_name_of, parent, parent_of};
use crate::profile::Profile;
use crate::text::{push_str, slice_views};

pub use crate::config::error::ConfigError;

verus! {

/// What one source knows of the configuration. What it does not know is
/// `None`.
#[derive(Debug)]
pub struct ConfigurationSource {
    pub archive: Option<String>,
    pub config: Option<String>,
    pub data_dir: Option<String>,
    pub temp_dir: Option<String>,
    pub target_dir: Option<String>,
    pub extractor: Option<String>,
    pub profile: Option<String>,
    pub extractors: Option<Dict<Extractor>>,
    pub profiles: Option<Dict<Profile>>,
}

/// The configuration that all sources together give.
#[derive(Debug)]
pub struct Configuration {
    pub archive: String,
    pub config: String,
    pub data_dir: String,
    pub temp_dir: String,
    pub target_dir: String,
    pub extractor: Option<String>,
    pub profile: Option<String>,
    pub extractors: Dict<Extractor>,
    pub profiles: Dict<Profile>,
}

/// The value of the first of `keys` that is a variable.
pub open spec fn first_variable(variables: Dict<String>, keys: Seq<Seq<char>>) -> Option<String>
    decreases keys.len(),
{
    if keys.len() == 0 {
        None
    } else if variables.has(keys[0]) {
        variables.lookup(keys[0])
    } else {
        first_variable(variables, keys.skip(1))
    }
}

/// A path with every reference to an environment variable replaced by the
/// variable's value, or by nothing where there is no such variable, again
/// and again until the text no longer changes.
pub open spec fn blanked_path(variables: Dict<String>, path: Seq<char>) -> Seq<char> {
    settled(variables.text_map(), path, true, ROUNDS as nat)
}

/// `name` in the directory `dir`: a `/` stands between them unless `dir` is
/// empty or ends in one.
pub open spec fn joined_path(dir: Seq<char>, name: Seq<char>) -> Seq<char> {
    if dir.len() == 0 || dir.last() == '/' {
        dir + name
    } else {
        dir + seq!['/'] + name
    }
}

/// Whether the fields of a source hold all that a configuration needs
/// beyond its catalogs and one of its two directories.
pub open spec fn complete_of(
    archive: Option<String>,
    config: Option<String>,
    data_dir: Option<String>,
    temp_dir: Option<String>,
    target_dir: Option<String>,
    variables: Dict<String>,
) -> bool {
    &&& archive is Some
    &&& config is Some
    &&& data_dir is Some
    &&& target_dir is None ==> file_name(archive->0@) is Some
    &&& temp_dir is None && target_dir is Some ==> parent(blanked_path(variables, target_dir->0@))
        is Some
}

/// Whether `complete_of` holds of the fields.
pub fn complete_fields(
    archive: &Option<String>,
    config: &Option<String>,
    data_dir: &Option<String>,
    temp_dir: &Option<String>,
    target_dir: &Option<String>,
    variables: &Dict<String>,
) -> (ok: bool)
    ensures
        ok == complete_of(*archive, *config, *data_dir, *temp_dir, *target_dir, *variables),
{
    if archive.is_none() || config.is_none() || data_dir.is_none() {
        return false;
    }
    match target_dir {
        Some(target) => {
            if temp_dir.is_none() {
                let expanded = ConfigurationSource::expand_evars(variables, target.clone());
                parent_of(expanded.as_str()).is_some()
            } else {
                true
            }
        },
        None => match archive {
            Some(path) => file_name_of(path.as_str()).is_some(),
            None => false,
        },
    }
}

impl ConfigurationSource {
    /// What the environment knows.
    pub open spec fn of_environment(variables: Dict<String>) -> ConfigurationSource {
        ConfigurationSource {
            archive: None,
            config: first_variable(variables, seq!["RXR_CONFIG"@]),
            data_dir: first_variable(variables, seq!["RXR_DATA_DIR"@, "XDG_DATA_HOME"@]),
            temp_dir: first_variable(variables, seq!["RXR_TEMP_DIR"@]),
            target_dir: first_variable(variables, seq!["RXR_TARGET_DIR"@]),
            extractor: first_variable(variables, seq!["RXR_EXTRACTOR"@]),
            profile: first_variable(variables, seq!["RXR_PROFILE"@]),
            extractors: None,
            profiles: None,
        }
    }

    /// This source before `other`: each field is this source's where it is
    /// set, and `other`'s where it is not.
    pub open spec fn merged(self, other: ConfigurationSource) -> ConfigurationSource {
        ConfigurationSource {
            archive: first_of(self.archive, other.archive),
            config: first_of(self.config, other.config),
            data_dir: first_of(self.data_dir, other.data_dir),
            temp_dir: first_of(self.temp_dir, other.temp_dir),
            target_dir: first_of(self.target_dir, other.target_dir),
            extractor: first_of(self.extractor, other.extractor),
            profile: first_of(self.profile, other.profile),
            extractors: first_of(self.extractors, other.extractors),
            profiles: first_of(self.profiles, other.profiles),
        }
    }

    /// Why no configuration is made of the source, if none is.
    pub open spec fn refusal(self) -> Option<ConfigError> {
        if self.extractors is None {
            Some(ConfigError::NoExtractors)
        } else if self.profiles is None {
            Some(ConfigError::NoProfiles)
        } else if self.temp_dir is None && self.target_dir is None {
            Some(ConfigError::NoTemp)
        } else {
            None
        }
    }

    /// Whether the source holds all that a configuration needs beyond what
    /// `refusal` asks for: an archive, a configuration file and a data
    /// directory; where the target directory has to be derived, an archive
    /// with a file name; and where the temporary directory has to be
    /// derived, a target directory that lies in some directory.
    pub open spec fn complete(self, variables: Dict<String>) -> bool {
        complete_of(
            self.archive,
            self.config,
            self.data_dir,
            self.temp_dir,
            self.target_dir,
            variables,
        )
    }

    /// Whether `result` is what `validate` owes for this source.
    pub open spec fn validated(
        self,
        variables: Dict<String>,
        result: Result<Configuration, ConfigError>,
    ) -> bool {
        match result {
            Ok(configuration) => {
                &&& self.refusal() is None
                &&& configuration.archive == self.archive->0
                &&& configuration.config@ == blanked_path(variables, self.config->0@)
                &&& configuration.data_dir@ == blanked_path(variables, self.data_dir->0@)
                &&& configuration.temp_dir@ == (match self.temp_dir {
                    Some(temp) => blanked_path(variables, temp@),
                    None => parent(blanked_path(variables, self.target_dir->0@))->0,
                })
                &&& configuration.target_dir@ == (match self.target_dir {
                    Some(target) => blanked_path(variables, target@),
                    None => joined_path(
                        blanked_path(variables, self.temp_dir->0@),
                        file_name(self.archive->0@)->0,
                    ),
                })
                &&& configuration.extractor == self.extractor
                &&& configuration.profile == self.profile
                &&& configuration.extractors == self.extractors->0
                &&& configuration.profiles == self.profiles->0
            },
            Err(error) => self.refusal() == Some(error),
        }
    }

    /// Whether `validate` takes the source: it is complete, or refused.
    pub open spec fn valid(self, variables: Dict<String>) -> bool {
        self.refusal() is None ==> self.complete(variables)
    }

    /// Whether the source is complete.
    pub fn is_complete(&self, variables: &Dict<String>) -> (ok: bool)
        ensures
            ok == self.complete(*variables),
    {
        complete_fields(
            &self.archive,
            &self.config,
            &self.data_dir,
            &self.temp_dir,
            &self.target_dir,
            variables,
        )
    }

    /// Whether `validate` takes the source.
    pub fn is_valid(&self, variables: &Dict<String>) -> (ok: bool)
        ensures
            ok == self.valid(*variables),
    {
        if self.extractors.is_none() || self.profiles.is_none() || (self.temp_dir.is_none()
            && self.target_dir.is_none()) {
            true
        } else {
            self.is_complete(variables)
        }
    }

    /// What was fixed at build time.
    pub fn compiled(config: Option<String>, data_dir: Option<String>, temp_dir: Option<String>) -> (source:
        ConfigurationSource)
        ensures
            source == (ConfigurationSource {
                archive: None,
                config,
                data_dir,
                temp_dir,
                target_dir: None,
                extractor: None,
                profile: None,
                extractors: None,
                profiles: None,
            }),
    {
        ConfigurationSource {
            archive: None,
            config,
            data_dir,
            temp_dir,
            target_dir: None,
            extractor: None,
            profile: None,
            extractors: None,
            profiles: None,
        }
    }

    /// What the environment of `variables` knows.
    pub fn environment(variables: &Dict<String>) -> (source: ConfigurationSource)
        ensures
            source == ConfigurationSource::of_environment(*variables),
    {
        let config = ["RXR_CONFIG"];
        let data_dir = ["RXR_DATA_DIR", "XDG_DATA_HOME"];
        let temp_dir = ["RXR_TEMP_DIR"];
        let target_dir = ["RXR_TARGET_DIR"];
        let extractor = ["RXR_EXTRACTOR"];
        let profile = ["RXR_PROFILE"];
        proof {
            assert(slice_views(config@) =~= seq!["RXR_CONFIG"@]);
            assert(slice_views(data_dir@) =~= seq!["RXR_DATA_DIR"@, "XDG_DATA_HOME"@]);
            assert(slice_views(temp_dir@) =~= seq!["RXR_TEMP_DIR"@]);
            assert(slice_views(target_dir@) =~= seq!["RXR_TARGET_DIR"@]);
            assert(slice_views(extractor@) =~= seq!["RXR_EXTRACTOR"@]);
            assert(slice_views(profile@) =~= seq!["RXR_PROFILE"@]);
        }
        ConfigurationSource {
            archive: None,
            config: ConfigurationSource::get_evar(variables, config.as_slice()),
            data_dir: ConfigurationSource::get_evar(variables, data_dir.as_slice()),
            temp_dir: ConfigurationSource::get_evar(variables, temp_dir.as_slice()),
            target_dir: ConfigurationSource::get_evar(variables, target_dir.as_slice()),
            extractor: ConfigurationSource::get_evar(variables, extractor.as_slice()),
            profile: ConfigurationSource::get_evar(variables, profile.as_slice()),
            extractors: None,
            profiles: None,
        }
    }

    /// The value of the first of `keys` that is a variable.
    pub fn get_evar(variables: &Dict<String>, keys: &[&str]) -> (value: Option<String>)
        ensures
            value == first_variable(*variables, slice_views(keys@)),
    {
        let ghost all = slice_views(keys@);
        let mut i: usize = 0;
        assert(all.skip(0) =~= all);
        while i < keys.len()
            invariant
                i <= keys.len(),
                all == slice_views(keys@),
                first_variable(*variables, all.skip(i as int)) == first_variable(*variables, all),
            decreases keys.len() - i,
        {
            assert(all.skip(i as int)[0] == keys@[i as int]@);
            assert(all.skip(i as int).skip(1) =~= all.skip(i + 1));
            match variables.get(keys[i]) {
                Some(value) => {
                    return Some(value.clone());
                },
                None => {},
            }
            i += 1;
        }
        None
    }

    /// `s` with every reference to an environment variable replaced by the
    /// variable's value, or by nothing where there is no such variable,
    /// again and again until the text no longer changes, but not more than
    /// `ROUNDS` times.
    pub fn expand_evars(variables: &Dict<String>, s: String) -> (text: String)
        ensures
            text@ == blanked_path(*variables, s@),
    {
        expand_fully(variables, s.as_str(), true)
    }

    /// Whether `s` no longer changes when it is expanded: it is so for what
    /// `expand_evars` returns unless `ROUNDS` rounds were not enough.
    pub fn is_expanded(variables: &Dict<String>, s: &str) -> (fixed: bool)
        ensures
            fixed == is_fixed(variables.text_map(), s@, true),
    {
        is_expanded(variables, s, true)
    }

    /// This source before `other`: what this source sets stays, and what it
    /// leaves open is taken from `other`.
    pub fn merge(self, other: ConfigurationSource) -> (source: ConfigurationSource)
        ensures
            source == self.merged(other),
    {
        ConfigurationSource {
            archive: first(self.archive, other.archive),
            config: first(self.config, other.config),
            data_dir: first(self.data_dir, other.data_dir),
            temp_dir: first(self.temp_dir, other.temp_dir),
            target_dir: first(self.target_dir, other.target_dir),
            extractor: first(self.extractor, other.extractor),
            profile: first(self.profile, other.profile),
            extractors: first(self.extractors, other.extractors),
            profiles: first(self.profiles, other.profiles),
        }
    }

    /// Makes a configuration of the source, or says what is missing: the
    /// catalog of extractors, the catalog of profiles, or both a temporary
    /// and a target directory. Of the two directories the one that is not
    /// set is derived from the other: the target directory is the archive's
    /// file name in the temporary directory, the temporary directory is
    /// the one that the target directory lies in.
    pub fn validate(self, variables: &Dict<String>) -> (result: Result<Configuration, ConfigError>)
        requires
            self.valid(*variables),
        ensures
            self.validated(*variables, result),
    {
        let extractors = match self.extractors {
            Some(extractors) => extractors,
            None => {
                return Err(ConfigError::NoExtractors);
            },
        };
        let profiles = match self.profiles {
            Some(profiles) => profiles,
            None => {
                return Err(ConfigError::NoProfiles);
            },
        };
        if self.temp_dir.is_none() && self.target_dir.is_none() {
            return Err(ConfigError::NoTemp);
        }
        let archive = match self.archive {
            Some(archive) => archive,
            None => String::new(),
        };
        let given_temp = match self.temp_dir {
            Some(temp) => Some(ConfigurationSource::expand_evars(variables, temp)),
            None => None,
        };
        let target_dir = match self.target_dir {
            Some(target) => ConfigurationSource::expand_evars(variables, target),
            None => {
                let mut path: Vec<char> = Vec::new();
                match &given_temp {
                    Some(temp) => {
                        push_str(&mut path, temp.as_str());
                    },
                    None => {},
                }
                let n = path.len();
                if n > 0 && path[n - 1] != '/' {
                    path.push('/');
                }
                match file_name_of(archive.as_str()) {
                    Some(name) => {
                        push_str(&mut path, name.as_str());
                    },
                    None => {},
                }
                assert(path@ =~= joined_path(given_temp->0@, file_name(archive@)->0));
                crate::text::from_chars(&path)
            },
        };
        let temp_dir = match given_temp {
            Some(temp) => temp,
            None => match parent_of(target_dir.as_str()) {
                Some(parent) => parent,
                None => String::new(),
            },
        };
        let config = match self.config {
            Some(config) => ConfigurationSource::expand_evars(variables, config),
            None => String::new(),
        };
        let data_dir = match self.data_dir {
            Some(data_dir) => ConfigurationSource::expand_evars(variables, data_dir),
            None => String::new(),
        };
        Ok(
            Configuration {
                archive,
                config,
                data_dir,
                temp_dir,
                target_dir,
                extractor: self.extractor,
                profile: self.profile,
                extractors,
                profiles,
            },
        )
    }
}

impl Configuration {
    /// The extractor that is chosen: the one of the name that is set, and
    /// no other; where no name is set, the last extractor of the catalog
    /// that takes the archive, else the one named `fallback`.
    pub open spec fn chosen_extractor(self) -> Option<Extractor> {
        match self.extractor {
            Some(name) => self.extractors.lookup(name@),
            None => {
                let at = last_claiming(self.extractors.values(), self.archive@);
                if at >= 0 {
                    Some(self.extractors.values()[at])
                } else {
                    self.extractors.lookup("fallback"@)
                }
            },
        }
    }

    /// The profile that is chosen by name: the one of the name that is set,
    /// else the one named `fallback`; none where no name is set.
    pub open spec fn chosen_profile(self) -> Option<Profile> {
        match self.profile {
            Some(name) => first_of(self.profiles.lookup(name@), self.profiles.lookup("fallback"@)),
            None => None,
        }
    }

    /// The configuration file to read: the command line's, else the one of
    /// the environment and the build, with the references to environment
    /// variables in its name resolved; or the error that none is named.
    pub fn config_file(
        command_line: &ConfigurationSource,
        environment: &ConfigurationSource,
        variables: &Dict<String>,
    ) -> (path: Result<String, ConfigError>)
        ensures
            match path {
                Ok(name) => first_of(command_line.config, environment.config) is Some && name@
                    == blanked_path(
                    *variables,
                    first_of(command_line.config, environment.config)->0@,
                ),
                Err(error) => error == ConfigError::NoConfig && command_line.config is None
                    && environment.config is None,
            },
    {
        match &command_line.config {
            Some(name) => Ok(ConfigurationSource::expand_evars(variables, name.clone())),
            None => match &environment.config {
                Some(name) => Ok(ConfigurationSource::expand_evars(variables, name.clone())),
                None => Err(ConfigError::NoConfig),
            },
        }
    }

    /// Whether `load` takes the sources: none of them names a configuration
    /// file, or their merge is refused, or it is complete.
    pub fn can_load(
        command_line: &ConfigurationSource,
        filesystem: &ConfigurationSource,
        environment: &ConfigurationSource,
        variables: &Dict<String>,
    ) -> (ok: bool)
        ensures
            ok == (first_of(command_line.config, environment.config) is Some
                && command_line.merged(*filesystem).merged(*environment).refusal() is None
                ==> command_line.merged(*filesystem).merged(*environment).complete(*variables)),
    {
        if command_line.config.is_none() && environment.config.is_none() {
            return true;
        }
        let temp_dir = first_ref(
            first_ref(&command_line.temp_dir, &filesystem.temp_dir),
            &environment.temp_dir,
        );
        let target_dir = first_ref(
            first_ref(&command_line.target_dir, &filesystem.target_dir),
            &environment.target_dir,
        );
        if first_ref(
            first_ref(&command_line.extractors, &filesystem.extractors),
            &environment.extractors,
        ).is_none() || first_ref(
            first_ref(&command_line.profiles, &filesystem.profiles),
            &environment.profiles,
        ).is_none() || (temp_dir.is_none() && target_dir.is_none()) {
            return true;
        }
        complete_fields(
            first_ref(first_ref(&command_line.archive, &filesystem.archive), &environment.archive),
            first_ref(first_ref(&command_line.config, &filesystem.config), &environment.config),
            first_ref(
                first_ref(&command_line.data_dir, &filesystem.data_dir),
                &environment.data_dir,
            ),
            temp_dir,
            target_dir,
            variables,
        )
    }

    /// The configuration that the sources give together. Where neither the
    /// command line nor the environment names a configuration file, that is
    /// the error; else the command line, the configuration file and the
    /// environment are merged in this order and the merge is validated.
    pub fn load(
        command_line: ConfigurationSource,
        filesystem: ConfigurationSource,
        environment: ConfigurationSource,
        variables: &Dict<String>,
    ) -> (result: Result<Configuration, ConfigError>)
        requires
            first_of(command_line.config, environment.config) is Some && command_line.merged(
                filesystem,
            ).merged(environment).refusal() is None ==> command_line.merged(filesystem).merged(
                environment,
            ).complete(*variables),
        ensures
            first_of(command_line.config, environment.config) is None ==> result == Err::<
                Configuration,
                ConfigError,
            >(ConfigError::NoConfig),
            first_of(command_line.config, environment.config) is Some ==> command_line.merged(
                filesystem,
            ).merged(environment).validated(*variables, result),
    {
        if command_line.config.is_none() && environment.config.is_none() {
            return Err(ConfigError::NoConfig);
        }
        command_line.merge(filesystem).merge(environment).validate(variables)
    }

    /// The extractor to unpack with.
    pub fn get_extractor(&self) -> (extractor: Option<&Extractor>)
        ensures
            match extractor {
                Some(e) => self.chosen_extractor() == Some(*e),
                None => self.chosen_extractor() is None,
            },
    {
        match &self.extractor {
            Some(name) => self.extractors.get(name.as_str()),
            None => {
                proof {
                    lemma_last_claiming(self.extractors.values(), self.archive@);
                    self.extractors.lemma_len();
                }
                match find_last_claiming(&self.extractors, self.archive.as_str()) {
                    Some(at) => Some(self.extractors.value(at)),
                    None => self.extractors.get("fallback"),
                }
            },
        }
    }

    /// The profile that is set by name.
    pub fn get_profile(&self) -> (profile: Option<&Profile>)
        ensures
            match profile {
                Some(p) => self.chosen_profile() == Some(*p),
                None => self.chosen_profile() is None,
            },
    {
        match &self.profile {
            Some(name) => match self.profiles.get(name.as_str()) {
                Some(profile) => Some(profile),
                None => self.profiles.get("fallback"),
            },
            None => None,
        }
    }
}

} // verus!
