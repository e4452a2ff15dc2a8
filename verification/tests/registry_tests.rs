use rxr::command::Command;
use rxr::config::{Config, Configuration};
use rxr::dict::Dict;
use rxr::extractor::Extractor;
use rxr::feature::Feature;
use rxr::mappings::Mappings;
use rxr::paths::Paths;
use rxr::pattern::Pattern;
use rxr::profile::Profile;

fn command(cmd: &str) -> Command {
    Command {
        cmd: String::from(cmd),
        args: vec![String::from("{archive}"), String::from("-d"), String::from("{target}")],
        evars: Command::evars_default(),
        wd: Command::wd_default(),
    }
}

fn extractor(cmd: &str, extensions: &[&str]) -> Extractor {
    Extractor::new(extensions.iter().map(|e| e.to_string()).collect(), command(cmd))
}

fn pattern(source: &str) -> Pattern {
    match Pattern::new(source) {
        Ok(pattern) => pattern,
        Err(error) => panic!("{}", error.message()),
    }
}

fn profile(cmd: &str, features: &[(&str, usize)]) -> Profile {
    Profile {
        command: command(cmd),
        executables: vec![pattern("\\.exe$"), pattern("\\.bat$")],
        features: features.iter().map(|(p, w)| Feature::new(pattern(p), *w)).collect(),
    }
}

fn configuration(
    archive: &str,
    extractor_name: Option<&str>,
    profile_name: Option<&str>,
    extractors: Dict<Extractor>,
    profiles: Dict<Profile>,
) -> Configuration {
    Configuration {
        archives: vec![String::from(archive)],
        config: String::from("rxr.json"),
        data_dir: String::from("/data"),
        temp_dir: String::from("/tmp"),
        target_dir: String::from("/tmp/out"),
        extractor: extractor_name.map(String::from),
        profile: profile_name.map(String::from),
        extractors,
        profiles,
    }
}

fn catalog() -> Dict<Extractor> {
    let mut extractors = Dict::new();
    extractors.insert(String::from("unzip"), extractor("unzip", &["zip"]));
    extractors.insert(String::from("fallback"), extractor("7z", &[]));
    extractors.insert(String::from("tar"), extractor("tar", &["tar", "tgz"]));
    extractors.insert(String::from("zip2"), extractor("bsdtar", &["zip", "rar"]));
    extractors
}

fn chosen(configuration: &Configuration) -> Option<String> {
    configuration.get_extractor().map(|e| e.command_ref().cmd.clone())
}

#[test]
fn an_extractor_claims_its_extensions() {
    let zip = extractor("unzip", &["zip"]);
    assert!(zip.can_extract("archive.zip"));
    assert!(!zip.can_extract("archive.tar"));
    assert!(!zip.can_extract("archive.ZIP"));
    assert!(!zip.can_extract("zip"));
    assert!(zip.can_extract("archive.zip/"));
    assert!(!zip.can_extract("archive.zip/.."));
    assert!(zip.can_extract("/dl/x.y/archive.tar.zip"));
    assert!(!zip.can_extract("/dl/x.zip/archive"));
    assert_eq!(zip.extension_list(), &vec![String::from("zip")]);
}

#[test]
fn an_extractor_of_the_empty_extension_claims_plain_names() {
    let plain = extractor("cat", &[""]);
    assert!(plain.can_extract("README"));
    assert!(plain.can_extract("trailing."));
    assert!(plain.can_extract(".hidden"));
    assert!(plain.can_extract(""));
    assert!(!plain.can_extract("a.b"));
}

#[test]
fn the_named_extractor_is_chosen_and_no_other() {
    let named = configuration("a.zip", Some("tar"), None, catalog(), Dict::new());
    assert_eq!(chosen(&named), Some(String::from("tar")));
    let missing = configuration("a.zip", Some("rar"), None, catalog(), Dict::new());
    assert_eq!(chosen(&missing), None);
}

#[test]
fn the_last_extractor_that_claims_the_archive_is_chosen() {
    let zip = configuration("a.zip", None, None, catalog(), Dict::new());
    assert_eq!(chosen(&zip), Some(String::from("bsdtar")));
    let tar = configuration("a.tgz", None, None, catalog(), Dict::new());
    assert_eq!(chosen(&tar), Some(String::from("tar")));
    let other = configuration("a.lha", None, None, catalog(), Dict::new());
    assert_eq!(chosen(&other), Some(String::from("7z")));
    let mut bare = Dict::new();
    bare.insert(String::from("unzip"), extractor("unzip", &["zip"]));
    let none = configuration("a.lha", None, None, bare, Dict::new());
    assert_eq!(chosen(&none), None);
}

#[test]
fn the_catalog_of_a_file_gives_its_last_claiming_extractor() {
    let config = Config { profiles: Dict::new(), paths: Paths::new(), extractors: catalog() };
    assert_eq!(
        config.get_extractor("x.zip").map(|e| e.command_ref().cmd.clone()),
        Some(String::from("bsdtar"))
    );
    assert!(config.get_extractor("x.lha").is_none());
}

#[test]
fn a_profile_is_chosen_by_name_or_falls_back() {
    let mut profiles = Dict::new();
    profiles.insert(String::from("dos"), profile("dosbox", &[]));
    profiles.insert(String::from("fallback"), profile("sh", &[]));
    let named = configuration("a.zip", None, Some("dos"), Dict::new(), profiles);
    assert_eq!(named.get_profile().map(|p| p.command.cmd.clone()), Some(String::from("dosbox")));

    let mut profiles = Dict::new();
    profiles.insert(String::from("dos"), profile("dosbox", &[]));
    profiles.insert(String::from("fallback"), profile("sh", &[]));
    let missing = configuration("a.zip", None, Some("wine"), Dict::new(), profiles);
    assert_eq!(missing.get_profile().map(|p| p.command.cmd.clone()), Some(String::from("sh")));

    let mut profiles = Dict::new();
    profiles.insert(String::from("dos"), profile("dosbox", &[]));
    let unset = configuration("a.zip", None, None, Dict::new(), profiles);
    assert!(unset.get_profile().is_none());

    let mut profiles = Dict::new();
    profiles.insert(String::from("dos"), profile("dosbox", &[]));
    let nothing = configuration("a.zip", None, Some("wine"), Dict::new(), profiles);
    assert!(nothing.get_profile().is_none());
}

#[test]
fn a_named_profile_that_is_not_there_gives_way_to_the_files() {
    let mut profiles = Dict::new();
    profiles.insert(String::from("dos"), profile("dosbox", &[("\\.exe$", 1)]));
    profiles.insert(String::from("sh"), profile("sh", &[("\\.sh$", 1)]));
    let missing = configuration("a.zip", None, Some("wine"), Dict::new(), profiles);
    assert_eq!(missing.select_profile(&["run.exe"]), Some(0));
    assert_eq!(missing.select_profile(&["run.sh", "x.sh"]), Some(1));

    let mut profiles = Dict::new();
    profiles.insert(String::from("dos"), profile("dosbox", &[("\\.exe$", 1)]));
    profiles.insert(String::from("fallback"), profile("sh", &[]));
    let fallback = configuration("a.zip", None, Some("wine"), Dict::new(), profiles);
    assert_eq!(fallback.select_profile(&["run.exe"]), Some(1));

    let mut profiles = Dict::new();
    profiles.insert(String::from("dos"), profile("dosbox", &[]));
    profiles.insert(String::from("sh"), profile("sh", &[("\\.sh$", 1)]));
    let named = configuration("a.zip", None, Some("dos"), Dict::new(), profiles);
    assert_eq!(named.select_profile(&["run.sh"]), Some(0));
    let unnamed = {
        let mut profiles = Dict::new();
        profiles.insert(String::from("dos"), profile("dosbox", &[]));
        profiles.insert(String::from("sh"), profile("sh", &[("\\.sh$", 1)]));
        configuration("a.zip", None, None, Dict::new(), profiles)
    };
    assert_eq!(unnamed.select_profile(&["run.sh"]), Some(1));
    let empty = configuration("a.zip", None, Some("dos"), Dict::new(), Dict::new());
    assert_eq!(empty.select_profile(&["run.sh"]), None);
}

#[test]
fn scores_beyond_the_numbers_of_the_machine_are_compared_as_they_are() {
    let files = ["a.exe", "b.exe", "c.exe"];
    let mut profiles = Dict::new();
    profiles.insert(
        String::from("heavy"),
        profile("x", &[("\\.exe$", usize::MAX), ("\\.exe$", usize::MAX), ("a", 2)]),
    );
    profiles.insert(
        String::from("heavier"),
        profile("x", &[("\\.exe$", usize::MAX), ("\\.exe$", usize::MAX), ("\\.exe$", 1)]),
    );
    profiles.insert(String::from("light"), profile("x", &[("\\.exe$", 7)]));
    let config = configuration("a.zip", None, None, Dict::new(), profiles);
    assert!(!config.can_score(files.len()));
    assert_eq!(config.determine_profile(&files), Some(1));
    assert_eq!(config.profiles.value(2).total_score(&files).get(), Some(21));
    assert_eq!(config.profiles.value(0).total_score(&files).get(), None);
    assert!(config.profiles.value(1).total_score(&files).at_least(
        &config.profiles.value(0).total_score(&files)
    ));
    assert!(!config.profiles.value(2).total_score(&files).at_least(
        &config.profiles.value(0).total_score(&files)
    ));
    assert_eq!(config.profiles.value(2).features[0].count(&files), 3);
}

#[test]
fn features_score_their_matches() {
    let exe = Feature::new(pattern("\\.exe$"), 2);
    assert_eq!(Feature::default_weight(), 1);
    assert_eq!(exe.weight_value(), 2);
    assert_eq!(exe.pattern_str(), "\\.exe$");
    assert_eq!(exe.score("run.exe"), 2);
    assert_eq!(exe.score("RUN.EXE"), 2);
    assert_eq!(exe.score("run.bat"), 0);
    assert_eq!(exe.score_all(&["run.exe", "run.bat", "b/setup.exe"]), 4);
    assert_eq!(exe.score_all(&[]), 0);
    assert_eq!(Feature::new(pattern("x"), 0).score_all(&["x", "xx"]), 0);
}

#[test]
fn the_profile_with_the_highest_score_is_determined() {
    let files = ["run.exe", "run.bat"];
    let windows = profile("dosbox", &[("\\.exe$", 2)]);
    let shell = profile("sh", &[("\\.bat$", 1)]);
    assert_eq!(windows.feature_score(&files), 2);
    assert_eq!(shell.feature_score(&files), 1);

    let mut profiles = Dict::new();
    profiles.insert(String::from("windows"), windows);
    profiles.insert(String::from("shell"), shell);
    let config = configuration("a.zip", None, None, Dict::new(), profiles);
    assert!(config.can_score(files.len()));
    let best = config.determine_profile(&files);
    assert_eq!(best, Some(0));
    assert_eq!(config.profiles.key(best.unwrap()), "windows");
}

#[test]
fn of_profiles_with_the_same_score_the_last_is_determined() {
    let mut profiles = Dict::new();
    profiles.insert(String::from("a"), profile("a", &[("\\.exe$", 1), ("run", 1)]));
    profiles.insert(String::from("b"), profile("b", &[("\\.bat$", 3)]));
    profiles.insert(String::from("c"), profile("c", &[("run\\.", 1), ("^r", 1), ("zzz", 9)]));
    profiles.insert(String::from("d"), profile("d", &[]));
    let config = configuration("a.zip", None, None, Dict::new(), profiles);
    assert_eq!(config.determine_profile(&["run.exe", "run.bat"]), Some(2));
    assert_eq!(config.determine_profile(&["x.bat", "run.bat"]), Some(1));
    assert_eq!(config.determine_profile(&[]), Some(3));
    let empty = configuration("a.zip", None, None, Dict::new(), Dict::new());
    assert_eq!(empty.determine_profile(&["run.exe"]), None);
}

#[test]
fn scores_that_do_not_fit_are_told_beforehand() {
    let heavy = profile("x", &[("a", usize::MAX), ("b", 1)]);
    assert_eq!(heavy.total_weight(), None);
    assert!(heavy.fits(0));
    assert!(!heavy.fits(1));
    let big = profile("x", &[("a", usize::MAX / 2)]);
    assert_eq!(big.total_weight(), Some(usize::MAX / 2));
    assert!(big.fits(2));
    assert!(!big.fits(3));
    assert!(profile("x", &[]).fits(usize::MAX));
}

#[test]
fn a_profile_knows_the_files_that_it_starts() {
    let dos = profile("dosbox", &[]);
    assert!(dos.starts("GAME.EXE"));
    assert!(dos.starts("a/run.bat"));
    assert!(!dos.starts("readme.txt"));
}

#[test]
fn commands_are_made_for_an_archive_and_for_an_executable() {
    let zip = extractor("unzip", &["zip"]);
    let unpack = zip.command_for("/dl/a.zip", "/tmp/a");
    assert_eq!(unpack.cmd, "unzip");
    assert_eq!(unpack.args, vec!["/dl/a.zip", "-d", "/tmp/a"]);
    assert_eq!(unpack.wd, "/tmp/a");

    let mut dos = profile("dosbox", &[]);
    dos.command.args = vec![String::from("{executable}"), String::from("{executable_dir}")];
    dos.command.evars.insert(String::from("DIR"), String::from("{target}/{executable_dir}"));
    let start = dos.command_for("bin/game.exe", "/tmp/a");
    assert_eq!(start.args, vec!["bin/game.exe", "bin"]);
    assert_eq!(start.evars.get("DIR").unwrap(), "/tmp/a/bin");
    assert_eq!(start.wd, "/tmp/a");
    let top = dos.command_for("game.exe", "/tmp/a");
    assert_eq!(top.args, vec!["game.exe", ""]);
    let none = dos.command_for("", "/tmp/a");
    assert_eq!(none.args, vec!["", "."]);
}

#[test]
fn the_paths_are_resolved_one_after_the_other() {
    let mut mappings = Mappings::new();
    mappings.insert("archive.name", "Game");
    let mut paths = Paths::new();
    paths.apply_mappings(&mut mappings);
    assert_eq!(paths.tmp, "/tmp/rxr");
    assert_eq!(paths.target, "/tmp/rxr/Game");
    assert_eq!(paths.stdout, "/tmp/rxr/Game/stdout");
    assert_eq!(paths.stderr, "/tmp/rxr/Game/stderr");
    assert_eq!(mappings.get("target").unwrap(), "/tmp/rxr/Game");
    assert_eq!(mappings.get("stderr").unwrap(), "/tmp/rxr/Game/stderr");
    assert_eq!(Paths::tmp_default(), "/tmp/rxr");
    assert_eq!(Paths::target_default(), "{tmp}/{archive.name}");
    assert_eq!(Paths::stdout_default(), "{target}/stdout");
    assert_eq!(Paths::stderr_default(), "{target}/stderr");
}

#[test]
fn the_catalog_of_a_file_takes_the_mappings() {
    let mut config = Config { profiles: Dict::new(), paths: Paths::new(), extractors: catalog() };
    let mut mappings = Mappings::new();
    mappings.insert("archive.name", "Game");
    mappings.insert("archive", "/dl/Game.zip");
    config.apply_mappings(&mut mappings);
    assert_eq!(config.paths.target, "/tmp/rxr/Game");
    let unzip = config.extractors.get("unzip").unwrap().command_ref();
    assert_eq!(unzip.args, vec!["/dl/Game.zip", "-d", "/tmp/rxr/Game"]);
    assert_eq!(unzip.wd, "/tmp/rxr/Game");
    assert_eq!(config.extractors.len(), 4);
    assert_eq!(config.extractors.key(3), "zip2");
}

#[test]
fn a_command_takes_the_mappings() {
    let mut mappings = Mappings::new();
    mappings.insert("target", "/t");
    let mut command = command("{target}");
    command.evars.insert(String::from("OUT"), String::from("{target}/out"));
    command.apply_mappings(&mappings);
    assert_eq!(command.cmd, "{target}");
    assert_eq!(command.wd, "/t");
    assert_eq!(command.args, vec!["{archive}", "-d", "/t"]);
    assert_eq!(command.evars.get("OUT").unwrap(), "/t/out");
    assert_eq!(Command::wd_default(), "{target}");
    assert_eq!(Command::evars_default().len(), 0);
    let copy = command.duplicate();
    assert_eq!(copy.args, command.args);
    assert_eq!(copy.wd, command.wd);
}
