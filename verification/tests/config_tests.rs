use rxr::command::Command;
use rxr::config::commandline::CommandLine;
use rxr::config::compiled::Compiled;
use rxr::config::error::ConfigError;
use rxr::config::persisted::Persisted;
use rxr::config::source::Source;
use rxr::config::{Configuration, Environment};
use rxr::dict::Dict;
use rxr::extractor::Extractor;
use rxr::naming::{combine_names, join_changes, Change};
use rxr::profile::Profile;

fn command(cmd: &str) -> Command {
    Command {
        cmd: String::from(cmd),
        args: vec![String::from("{archive}"), String::from("-d"), String::from("{target}")],
        evars: Command::evars_default(),
        wd: Command::wd_default(),
    }
}

fn extractors() -> Dict<Extractor> {
    let mut catalog = Dict::new();
    catalog.insert(
        String::from("zip"),
        Extractor::new(vec![String::from("zip")], command("unzip")),
    );
    catalog
}

fn profiles() -> Dict<Profile> {
    let mut catalog = Dict::new();
    catalog.insert(
        String::from("dos"),
        Profile { command: command("dosbox"), executables: vec![], features: vec![] },
    );
    catalog
}

fn variables(pairs: &[(&str, &str)]) -> Dict<String> {
    let mut out = Dict::new();
    for (key, val) in pairs.iter() {
        out.insert(String::from(*key), String::from(*val));
    }
    out
}

fn environment(pairs: &[(&str, &str)]) -> Environment {
    Environment::new(variables(pairs))
}

fn text(s: &str) -> Option<String> {
    Some(String::from(s))
}

fn full_source() -> Source {
    let mut source = Source::new();
    source.archives = Some(vec![String::from("/games/foo_v1.zip"), String::from("foo_v2.zip")]);
    source.config = text("$HOME/rxr.json");
    source.data_dir = text("${HOME}/data");
    source.temp_dir = text("/tmp/rxr");
    source.extractors = Some(extractors());
    source.profiles = Some(profiles());
    source
}

fn error_of(result: Result<Configuration, ConfigError>) -> ConfigError {
    match result {
        Ok(_) => panic!("a configuration was made"),
        Err(error) => error,
    }
}

fn made(result: Result<Configuration, ConfigError>) -> Configuration {
    match result {
        Ok(configuration) => configuration,
        Err(error) => panic!("{}", error.description()),
    }
}

#[test]
fn merge_takes_what_the_first_source_sets() {
    let mut a = Source::new();
    a.config = text("a.json");
    a.temp_dir = text("/a/tmp");
    a.archives = Some(vec![String::from("a.zip")]);
    a.extractors = Some(extractors());
    let mut b = Source::new();
    b.config = text("b.json");
    b.data_dir = text("/b/data");
    b.profile = text("dos");
    b.archives = Some(vec![String::from("b.zip")]);
    b.profiles = Some(profiles());

    let merged = a.merge(b);
    assert_eq!(merged.config, text("a.json"));
    assert_eq!(merged.temp_dir, text("/a/tmp"));
    assert_eq!(merged.archives, Some(vec![String::from("a.zip")]));
    assert_eq!(merged.data_dir, text("/b/data"));
    assert_eq!(merged.profile, text("dos"));
    assert_eq!(merged.target_dir, None);
    assert_eq!(merged.extractor, None);
    assert_eq!(merged.extractors.map(|catalog| catalog.len()), Some(1));
    assert_eq!(merged.profiles.map(|catalog| catalog.len()), Some(1));
}

#[test]
fn merge_with_nothing_changes_nothing() {
    let merged = Source::new().merge(full_source()).merge(Source::new());
    assert_eq!(merged.config, text("$HOME/rxr.json"));
    assert_eq!(merged.data_dir, text("${HOME}/data"));
    assert_eq!(merged.temp_dir, text("/tmp/rxr"));
    assert_eq!(merged.archives.map(|archives| archives.len()), Some(2));
}

#[test]
fn validation_says_what_is_missing() {
    let env = environment(&[]);
    let mut source = full_source();
    source.extractors = None;
    source.profiles = None;
    source.temp_dir = None;
    assert_eq!(error_of(source.validate(&env)), ConfigError::NoExtractors);

    let mut source = full_source();
    source.profiles = None;
    source.temp_dir = None;
    assert_eq!(error_of(source.validate(&env)), ConfigError::NoProfiles);

    let mut source = full_source();
    source.temp_dir = None;
    assert_eq!(error_of(source.validate(&env)), ConfigError::NoTemp);
}

#[test]
fn the_target_directory_is_named_after_all_archives() {
    let env = environment(&[("HOME", "/home/me")]);
    let configuration = made(full_source().validate(&env));
    assert_eq!(configuration.temp_dir, "/tmp/rxr");
    assert_eq!(configuration.target_dir, "/tmp/rxr/foo_v1_2");
    assert_eq!(configuration.config, "/home/me/rxr.json");
    assert_eq!(configuration.data_dir, "/home/me/data");
    assert_eq!(configuration.archives, vec!["/games/foo_v1.zip", "foo_v2.zip"]);
    assert_eq!(configuration.extractor, None);
    assert_eq!(configuration.profile, None);
    assert_eq!(configuration.extractors.len(), 1);
    assert_eq!(configuration.profiles.len(), 1);

    let again = made(full_source().validate(&env));
    assert_eq!(again.target_dir, configuration.target_dir);
}

#[test]
fn the_target_directory_of_one_archive_is_its_stem() {
    let env = environment(&[("TMP", "/var/tmp")]);
    let mut source = full_source();
    source.archives = Some(vec![String::from("/games/Game.v2.zip")]);
    source.temp_dir = text("$TMP/rxr");
    source.extractor = text("zip");
    source.profile = text("dos");
    let configuration = made(source.validate(&env));
    assert_eq!(configuration.temp_dir, "/var/tmp/rxr");
    assert_eq!(configuration.target_dir, "/var/tmp/rxr/Game.v2");
    assert_eq!(configuration.extractor, text("zip"));
    assert_eq!(configuration.profile, text("dos"));
}

#[test]
fn the_temporary_directory_is_where_the_target_lies() {
    let env = environment(&[("HOME", "/home/me")]);
    let mut source = full_source();
    source.temp_dir = None;
    source.target_dir = text("$HOME/games/out");
    source.archives = None;
    let configuration = made(source.validate(&env));
    assert_eq!(configuration.target_dir, "/home/me/games/out");
    assert_eq!(configuration.temp_dir, "/home/me/games");
    assert!(configuration.archives.is_empty());
}

#[test]
fn a_target_directory_that_is_set_stays() {
    let env = environment(&[]);
    let mut source = full_source();
    source.target_dir = text("/out/here");
    let configuration = made(source.validate(&env));
    assert_eq!(configuration.target_dir, "/out/here");
    assert_eq!(configuration.temp_dir, "/tmp/rxr");
}

#[test]
fn names_are_combined_by_their_differences() {
    let names = vec![String::from("foo_v1"), String::from("foo_v2")];
    assert_eq!(combine_names(&names), "foo_v1_2");
    assert_eq!(combine_names(&names), combine_names(&names));
    assert_eq!(combine_names(&vec![String::from("only")]), "only");
    assert_eq!(combine_names(&vec![]), "");
    assert_eq!(
        combine_names(&vec![String::from("game"), String::from("game")]),
        "game"
    );
    assert_eq!(
        combine_names(&vec![String::from("disk1"), String::from("disk2"), String::from("disk3")]),
        "disk1_2_3"
    );
}

#[test]
fn changes_are_joined_with_an_underscore_before_what_was_added() {
    let changes = vec![
        Change::Same(String::from("te")),
        Change::Rem(String::from("s")),
        Change::Add(String::from("n")),
        Change::Same(String::from("t")),
    ];
    assert_eq!(join_changes(&changes), "tes_nt");
    assert_eq!(join_changes(&vec![]), "");
    assert_eq!(join_changes(&vec![Change::Add(String::new())]), "_");
}

#[test]
fn loading_needs_a_configuration_file() {
    let args = CommandLine::current(vec![String::from("a.zip")], None, None, None, None, None, None);
    let result = Configuration::load(
        args,
        environment(&[("RXR_TEMP_DIR", "/tmp")]),
        Persisted::new(Some(extractors()), Some(profiles())),
        Compiled::new(None, None, None),
    );
    assert_eq!(error_of(result), ConfigError::NoConfig);
}

#[test]
fn loading_merges_the_sources_in_the_order_of_their_priority() {
    let args = CommandLine::current(
        vec![String::from("/dl/a.zip")],
        None,
        text("/args/data"),
        None,
        None,
        None,
        text("dos"),
    );
    let env = environment(&[
        ("RXR_CONFIG", "/env/rxr.json"),
        ("RXR_DATA_DIR", "/env/data"),
        ("RXR_TEMP_DIR", "/env/tmp"),
        ("RXR_EXTRACTOR", "zip"),
        ("RXR_PROFILE", "other"),
    ]);
    let persisted = Persisted::new(Some(extractors()), Some(profiles()));
    let compiled = Compiled::new(text("/built/rxr.json"), text("/built/data"), text("/built/tmp"));
    assert_eq!(
        Configuration::config_path(&args, &env, &compiled),
        Ok(String::from("/env/rxr.json"))
    );
    let configuration = made(Configuration::load(args, env, persisted, compiled));
    assert_eq!(configuration.config, "/env/rxr.json");
    assert_eq!(configuration.data_dir, "/args/data");
    assert_eq!(configuration.temp_dir, "/env/tmp");
    assert_eq!(configuration.target_dir, "/env/tmp/a");
    assert_eq!(configuration.extractor, text("zip"));
    assert_eq!(configuration.profile, text("dos"));
    assert_eq!(configuration.archives, vec!["/dl/a.zip"]);
}

#[test]
fn the_configuration_file_is_the_first_that_is_named() {
    let none = CommandLine::current(vec![], None, None, None, None, None, None);
    let named = CommandLine::current(vec![], text("args.json"), None, None, None, None, None);
    let env = environment(&[("RXR_CONFIG", "env.json")]);
    let bare = environment(&[]);
    let built = Compiled::new(text("built.json"), None, None);
    let unbuilt = Compiled::new(None, None, None);
    assert_eq!(Configuration::config_path(&named, &env, &built), Ok(String::from("args.json")));
    assert_eq!(Configuration::config_path(&none, &env, &built), Ok(String::from("env.json")));
    assert_eq!(Configuration::config_path(&none, &bare, &built), Ok(String::from("built.json")));
    assert_eq!(Configuration::config_path(&none, &bare, &unbuilt), Err(ConfigError::NoConfig));
}

#[test]
fn the_environment_is_read_by_its_names() {
    let env = environment(&[
        ("RXR_CONFIG", "c"),
        ("XDG_DATA_HOME", "x"),
        ("RXR_TEMP_DIR", "t"),
        ("RXR_TARGET_DIR", "o"),
        ("RXR_EXTRACTOR", "e"),
        ("RXR_PROFILE", "p"),
    ]);
    assert_eq!(env.get_config().unwrap(), "c");
    assert_eq!(env.get_data_dir().unwrap(), "x");
    assert_eq!(env.get_temp_dir().unwrap(), "t");
    assert_eq!(env.get_target_dir().unwrap(), "o");
    assert_eq!(env.get_extractor().unwrap(), "e");
    assert_eq!(env.get_profile().unwrap(), "p");
    assert_eq!(env.variable("XDG_DATA_HOME").unwrap(), "x");
    assert!(env.variable("HOME").is_none());

    let both = environment(&[("XDG_DATA_HOME", "x"), ("RXR_DATA_DIR", "d")]);
    assert_eq!(both.get_data_dir().unwrap(), "d");
    let bare = environment(&[]);
    assert!(bare.get_config().is_none());
    assert!(bare.get_data_dir().is_none());
    assert!(bare.get_profile().is_none());

    let source = Source::from_environment(&env);
    assert_eq!(source.config, text("c"));
    assert_eq!(source.data_dir, text("x"));
    assert_eq!(source.temp_dir, text("t"));
    assert_eq!(source.target_dir, text("o"));
    assert_eq!(source.extractor, text("e"));
    assert_eq!(source.profile, text("p"));
    assert!(source.archives.is_none());
    assert!(source.extractors.is_none());
}

#[test]
fn the_values_of_the_environment_are_expanded_until_they_settle() {
    let env = environment(&[("A", "$B/a"), ("B", "$C/b"), ("C", "c"), ("D", "$MISSING/d")]);
    assert_eq!(env.variable("A").unwrap(), "c/b/a");
    assert_eq!(env.variable("B").unwrap(), "c/b");
    assert_eq!(env.variable("C").unwrap(), "c");
    assert_eq!(env.variable("D").unwrap(), "$MISSING/d");
    assert_eq!(env.expand_once("$A"), "$B/a");
    assert_eq!(env.expand("$A"), "c/b/a");
    assert_eq!(env.expand("${A}-$D-$$"), "c/b/a-$MISSING/d-$$");
    assert!(env.is_expanded("c/b/a-$MISSING/d-$$"));
    assert!(!env.is_expanded("$B/a"));
}

#[test]
fn a_reference_in_a_value_is_followed() {
    let env = environment(&[("A", "$B/x"), ("B", "/home/u")]);
    assert_eq!(env.expand("${A}/y"), "/home/u/x/y");
    assert_eq!(env.expand_once("${A}/y"), "$B/x/y");
    assert_eq!(env.variable("A").unwrap(), "/home/u/x");
}

#[test]
fn references_are_resolved_as_the_pattern_finds_them() {
    let pattern = regex::Regex::new(r"\$\{?([_a-zA-Z0-9]+)\}?").unwrap();
    let pairs = [("HOME", "/home/me"), ("X", "$Y"), ("Y", "y}"), ("a_1", ""), ("E", "${HOME}")];
    let env = environment(&pairs);
    let texts = [
        "",
        "$HOME",
        "${HOME}",
        "${HOME",
        "$HOME}",
        "$",
        "${}",
        "${",
        "$$HOME",
        "$HOME$HOME",
        "a$HOME/b${X}c$Y",
        "$NOPE/${NOPE}/$HOME",
        "$a_1$X}$E",
        "${X}${X",
        "$HOMEx $HOME-x",
        "{$HOME}",
        "$é$HOME",
    ];
    for text in texts.iter() {
        let expected = pattern
            .captures_iter(text)
            .filter_map(|found| {
                pairs
                    .iter()
                    .find(|(key, _)| *key == &found[1])
                    .map(|(_, val)| (found[0].to_string(), val.to_string()))
            })
            .fold(text.to_string(), |so_far, (whole, val)| so_far.replace(&whole, &val));
        assert_eq!(env.expand_once(text), expected, "{:?}", text);
    }
}

#[test]
fn expansion_stops_where_the_text_keeps_changing() {
    let env = environment(&[("A", "x$A")]);
    let settled = env.expand("$A");
    assert_eq!(settled.len(), 64 + 2);
    assert!(settled.ends_with("x$A"));
    assert!(!env.is_expanded(&settled));
    let fixed = environment(&[("A", "$A")]);
    assert_eq!(fixed.expand("$A"), "$A");
    assert!(fixed.is_expanded("$A"));
}

#[test]
fn a_source_tells_whether_it_is_complete() {
    let env = environment(&[("HOME", "/home/me")]);
    assert!(full_source().is_complete(&env));
    assert!(full_source().is_valid(&env));

    let mut source = full_source();
    source.data_dir = None;
    assert!(!source.is_complete(&env));
    assert!(!source.is_valid(&env));
    source.profiles = None;
    assert!(source.is_valid(&env));

    let mut source = full_source();
    source.archives = Some(vec![]);
    assert!(!source.is_complete(&env));
    source.archives = Some(vec![String::from("a.zip"), String::from("..")]);
    assert!(!source.is_complete(&env));
    source.archives = None;
    assert!(!source.is_complete(&env));
    source.target_dir = text("/out");
    assert!(source.is_complete(&env));
    source.temp_dir = None;
    assert!(source.is_complete(&env));
    source.target_dir = text("/");
    assert!(!source.is_complete(&env));
}

#[test]
fn the_sources_tell_whether_they_can_be_loaded() {
    let env = environment(&[("RXR_CONFIG", "rxr.json"), ("RXR_TEMP_DIR", "/tmp")]);
    let catalogs = Persisted::new(Some(extractors()), Some(profiles()));
    let built = Compiled::new(None, text("/data"), None);
    let unbuilt = Compiled::new(None, None, None);
    let line = CommandLine::current(vec![String::from("a.zip")], None, None, None, None, None, None);
    let bare = CommandLine::current(vec![], None, None, None, None, None, None);
    assert!(Configuration::can_load(&line, &env, &catalogs, &built));
    assert!(!Configuration::can_load(&line, &env, &catalogs, &unbuilt));
    assert!(!Configuration::can_load(&bare, &env, &catalogs, &built));
    assert!(Configuration::can_load(&bare, &environment(&[]), &catalogs, &unbuilt));
    assert!(Configuration::can_load(&bare, &env, &Persisted::new(None, None), &unbuilt));
}
