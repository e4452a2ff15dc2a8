//! The configuration of a run, and the choice of extractor and profile.

use vstd::prelude::*;

use crate::config::commandline::CommandLine;
use crate::config::compiled::Compiled;
use crate::config::environment::{first_of, Environment};
use crate::config::error::ConfigError;
use crate::config::persisted::Persisted;
use crate::config::source::{complete_fields, first_ref, Source};
use crate::config::{find_last_claiming, last_claiming, lemma_last_claiming};
use crate::dict::{lemma_position_of, position_of, Dict};
use crate::extractor::Extractor;
use crate::profile::{Profile, Score};
use crate::text::slice_views;

verus! {

/// The configuration that all sources together give.
#[derive(Debug)]
pub struct Configuration {
    pub archives: Vec<String>,
    pub config: String,
    pub data_dir: String,
    pub temp_dir: String,
    pub target_dir: String,
    pub extractor: Option<String>,
    pub profile: Option<String>,
    pub extractors: Dict<Extractor>,
    pub profiles: Dict<Profile>,
}

/// The four sources merged in the order of their priority: command line,
/// environment, configuration file, build.
pub open spec fn all_sources(
    args: CommandLine,
    environment: Environment,
    persisted: Persisted,
    compiled: Compiled,
) -> Source {
    Source::of_command_line(args).merged(Source::of_environment(environment)).merged(
        Source::of_persisted(persisted),
    ).merged(Source::of_compiled(compiled))
}

/// The configuration file that the sources name: the command line's, else
/// the environment's, else the one fixed at build time.
pub open spec fn named_config(args: CommandLine, environment: Environment, compiled: Compiled)
    -> Option<String> {
    first_of(args.config, first_of(environment.entry("RXR_CONFIG"@), compiled.config))
}

/// The index of the profile with the highest score on `items` among the
/// first `count`, the last of them where several have it; -1 where `count`
/// is 0.
pub open spec fn best_of(profiles: Seq<Profile>, items: Seq<Seq<char>>, count: int) -> int
    decreases count,
{
    if count <= 0 || count > profiles.len() {
        -1
    } else {
        let before = best_of(profiles, items, count - 1);
        if before < 0 || profiles[count - 1].score(items) >= profiles[before].score(items) {
            count - 1
        } else {
            before
        }
    }
}

/// The best profile scores at least as high as every other, and higher
/// than every one after it.
pub proof fn lemma_best_of(profiles: Seq<Profile>, items: Seq<Seq<char>>, count: int)
    requires
        0 <= count <= profiles.len(),
    ensures
        -1 <= best_of(profiles, items, count) < count,
        count > 0 ==> best_of(profiles, items, count) >= 0,
        forall|i: int|
            0 <= i < count ==> (#[trigger] profiles[i]).score(items) <= profiles[best_of(
                profiles,
                items,
                count,
            )].score(items),
        forall|i: int|
            best_of(profiles, items, count) < i < count ==> (#[trigger] profiles[i]).score(items)
                < profiles[best_of(profiles, items, count)].score(items),
    decreases count,
{
    if count > 0 {
        lemma_best_of(profiles, items, count - 1);
    }
}

impl Configuration {
    /// The extractor that is chosen: the one of the name that is set, and
    /// no other; where no name is set, the last extractor of the catalog
    /// that takes the first archive, else the one named `fallback`.
    pub open spec fn chosen_extractor(self) -> Option<Extractor> {
        match self.extractor {
            Some(name) => self.extractors.lookup(name@),
            None => {
                let at = last_claiming(self.extractors.values(), self.archives[0]@);
                if at >= 0 {
                    Some(self.extractors.values()[at])
                } else {
                    self.extractors.lookup("fallback"@)
                }
            },
        }
    }

    /// The profile that is chosen by name: the one of the name that is set,
    /// else the one named `fallback`; none where no name is set.
    pub open spec fn chosen_profile(self) -> Option<Profile> {
        match self.profile {
            Some(name) => first_of(self.profiles.lookup(name@), self.profiles.lookup("fallback"@)),
            None => None,
        }
    }

    /// The configuration file to read, or the error that none is named.
    pub fn config_path(args: &CommandLine, environment: &Environment, compiled: &Compiled) -> (path:
        Result<String, ConfigError>)
        ensures
            match path {
                Ok(name) => named_config(*args, *environment, *compiled) == Some(name),
                Err(error) => error == ConfigError::NoConfig && named_config(
                    *args,
                    *environment,
                    *compiled,
                ) is None,
            },
    {
        match &args.config {
            Some(name) => Ok(name.clone()),
            None => match environment.get_config() {
                Some(name) => Ok(name.clone()),
                None => match &compiled.config {
                    Some(name) => Ok(name.clone()),
                    None => Err(ConfigError::NoConfig),
                },
            },
        }
    }

    /// Whether `load` takes the four sources: none of them names a
    /// configuration file, or their merge is refused, or it is complete.
    pub fn can_load(
        args: &CommandLine,
        environment: &Environment,
        persisted: &Persisted,
        compiled: &Compiled,
    ) -> (ok: bool)
        ensures
            ok == (named_config(*args, *environment, *compiled) is Some && all_sources(
                *args,
                *environment,
                *persisted,
                *compiled,
            ).refusal() is None ==> all_sources(*args, *environment, *persisted, *compiled).complete(
                *environment,
            )),
    {
        let found = Source::from_environment(environment);
        let none: Option<String> = None;
        let config = first_ref(first_ref(first_ref(&args.config, &found.config), &none), &compiled.config);
        let data_dir = first_ref(
            first_ref(first_ref(&args.data_dir, &found.data_dir), &none),
            &compiled.data_dir,
        );
        let temp_dir = first_ref(
            first_ref(first_ref(&args.temp_dir, &found.temp_dir), &none),
            &compiled.temp_dir,
        );
        let target_dir = first_ref(
            first_ref(first_ref(&args.target_dir, &found.target_dir), &none),
            &none,
        );
        if config.is_none() || persisted.extractors.is_none() || persisted.profiles.is_none() || (
        temp_dir.is_none() && target_dir.is_none()) {
            return true;
        }
        complete_fields(config, data_dir, temp_dir, target_dir, &args.archives, environment)
    }

    /// The configuration that the four sources give together. Where none of
    /// them names a configuration file, that is the error; else the sources
    /// are merged in the order of their priority and the merge is
    /// validated.
    pub fn load(
        args: CommandLine,
        environment: Environment,
        persisted: Persisted,
        compiled: Compiled,
    ) -> (result: Result<Configuration, ConfigError>)
        requires
            named_config(args, environment, compiled) is Some && all_sources(
                args,
                environment,
                persisted,
                compiled,
            ).refusal() is None ==> all_sources(args, environment, persisted, compiled).complete(
                environment,
            ),
        ensures
            named_config(args, environment, compiled) is None ==> result == Err::<
                Configuration,
                ConfigError,
            >(ConfigError::NoConfig),
            named_config(args, environment, compiled) is Some ==> all_sources(
                args,
                environment,
                persisted,
                compiled,
            ).validated(environment, result),
    {
        match Configuration::config_path(&args, &environment, &compiled) {
            Ok(_) => {},
            Err(error) => {
                return Err(error);
            },
        }
        let source = Source::from_command_line(args).merge(
            Source::from_environment(&environment),
        ).merge(Source::from_persisted(persisted)).merge(Source::from_compiled(compiled));
        source.validate(&environment)
    }

    /// The extractor to unpack with.
    pub fn get_extractor(&self) -> (extractor: Option<&Extractor>)
        requires
            self.extractor is None ==> self.archives.len() > 0,
        ensures
            match extractor {
                Some(e) => self.chosen_extractor() == Some(*e),
                None => self.chosen_extractor() is None,
            },
    {
        match &self.extractor {
            Some(name) => self.extractors.get(name.as_str()),
            None => {
                proof {
                    lemma_last_claiming(self.extractors.values(), self.archives[0]@);
                    self.extractors.lemma_len();
                }
                match find_last_claiming(&self.extractors, self.archives[0].as_str()) {
                    Some(at) => Some(self.extractors.value(at)),
                    None => self.extractors.get("fallback"),
                }
            },
        }
    }

    /// The profile that is set by name.
    pub fn get_profile(&self) -> (profile: Option<&Profile>)
        ensures
            match profile {
                Some(p) => self.chosen_profile() == Some(*p),
                None => self.chosen_profile() is None,
            },
    {
        match &self.profile {
            Some(name) => match self.profiles.get(name.as_str()) {
                Some(profile) => Some(profile),
                None => self.profiles.get("fallback"),
            },
            None => None,
        }
    }

    /// The index, in the catalog, of the profile that starts the program:
    /// the one that is set by name, or the one called `fallback` where the
    /// name is not in the catalog; where neither is there, or no name is
    /// set, the one that the files speak for.
    pub open spec fn executor(self, files: Seq<Seq<char>>) -> Option<int> {
        if self.profile is Some && self.profiles.has(self.profile->0@) {
            Some(position_of(self.profiles.keys(), self.profile->0@))
        } else if self.profile is Some && self.profiles.has("fallback"@) {
            Some(position_of(self.profiles.keys(), "fallback"@))
        } else if self.profiles.values().len() > 0 {
            Some(best_of(self.profiles.values(), files, self.profiles.values().len() as int))
        } else {
            None
        }
    }

    /// The index, in the catalog, of the profile that starts the program.
    /// There is none only where the catalog is empty.
    pub fn select_profile(&self, files: &[&str]) -> (chosen: Option<usize>)
        ensures
            match chosen {
                Some(at) => self.executor(slice_views(files@)) == Some(at as int) && at
                    < self.profiles.values().len(),
                None => self.executor(slice_views(files@)) is None
                    && self.profiles.values().len() == 0,
            },
    {
        proof {
            self.profiles.lemma_len();
            lemma_best_of(
                self.profiles.values(),
                slice_views(files@),
                self.profiles.values().len() as int,
            );
        }
        match &self.profile {
            Some(name) => {
                proof {
                    lemma_position_of(self.profiles.keys(), name@);
                    lemma_position_of(self.profiles.keys(), "fallback"@);
                }
                match self.profiles.position(name.as_str()) {
                    Some(at) => Some(at),
                    None => match self.profiles.position("fallback") {
                        Some(at) => Some(at),
                        None => self.determine_profile(files),
                    },
                }
            },
            None => self.determine_profile(files),
        }
    }

    /// Whether every profile can score `count` items.
    pub fn can_score(&self, count: usize) -> (ok: bool)
        ensures
            ok == forall|i: int|
                0 <= i < self.profiles.values().len() ==> (#[trigger] self.profiles.values()[i]).can_score(
                    count as int,
                ),
    {
        let n = self.profiles.len();
        let mut i: usize = 0;
        while i < n
            invariant
                i <= n,
                n == self.profiles.values().len(),
                n == self.profiles.keys().len(),
                forall|j: int|
                    0 <= j < i ==> (#[trigger] self.profiles.values()[j]).can_score(count as int),
            decreases n - i,
        {
            if !self.profiles.value(i).fits(count) {
                return false;
            }
            i += 1;
        }
        true
    }

    /// The index, in the catalog, of the profile that the files speak for:
    /// the one with the highest score on `files`, and of several with that
    /// score the last. No profile scores higher than it, and none after it
    /// scores as high. Nothing where the catalog is empty.
    pub fn determine_profile(&self, files: &[&str]) -> (best: Option<usize>)
        ensures
            match best {
                Some(at) => {
                    &&& at == best_of(
                        self.profiles.values(),
                        slice_views(files@),
                        self.profiles.values().len() as int,
                    )
                    &&& at < self.profiles.values().len()
                    &&& forall|i: int|
                        0 <= i < self.profiles.values().len() ==> (
                        #[trigger] self.profiles.values()[i]).score(slice_views(files@))
                            <= self.profiles.values()[at as int].score(slice_views(files@))
                    &&& forall|i: int|
                        at < i < self.profiles.values().len() ==> (
                        #[trigger] self.profiles.values()[i]).score(slice_views(files@))
                            < self.profiles.values()[at as int].score(slice_views(files@))
                },
                None => self.profiles.values().len() == 0,
            },
    {
        let ghost items = slice_views(files@);
        let n = self.profiles.len();
        let mut best: Option<usize> = None;
        let mut high = Score::zero();
        let mut i: usize = 0;
        while i < n
            invariant
                i <= n,
                n == self.profiles.values().len(),
                n == self.profiles.keys().len(),
                items == slice_views(files@),
                match best {
                    Some(at) => at == best_of(self.profiles.values(), items, i as int) && at < i
                        && high.value() == self.profiles.values()[at as int].score(items),
                    None => i == 0,
                },
            decreases n - i,
        {
            let score = self.profiles.value(i).total_score(files);
            proof {
                let values = self.profiles.values();
                assert(score.value() == values[i as int].score(items));
                if i > 0 {
                    assert(best_of(values, items, i + 1) == (if values[i as int].score(items)
                        >= values[best_of(values, items, i as int)].score(items) {
                        i as int
                    } else {
                        best_of(values, items, i as int)
                    }));
                } else {
                    assert(best_of(values, items, 0) == -1);
                    assert(best_of(values, items, 1) == 0);
                }
            }
            if best.is_none() || score.at_least(&high) {
                best = Some(i);
                high = score;
            }
            i += 1;
        }
        proof {
            lemma_best_of(self.profiles.values(), items, n as int);
        }
        best
    }
}

} // verus!
