use rxr::filters::Filters;
use rxr::pattern::Pattern;

use std::path::PathBuf;

fn pattern(source: &str) -> Pattern {
    match Pattern::new(source) {
        Ok(pattern) => pattern,
        Err(error) => panic!("{}", error.message()),
    }
}

fn filters() -> Filters {
    Filters {
        includes: vec![pattern(".*\\.(exe|bat)$")],
        excludes: vec![pattern(".*setup.*"), pattern("docs.bat"), pattern("docs.com")],
    }
}

#[test]
fn filter_strs() {
    let filters = filters();

    let items = vec![
        "run.exe",
        "run.bat",
        "run.com",
        "setup.exe",
        "setup.bat",
        "setup.com",
        "docs.exe",
        "docs.bat",
        "docs.com",
    ];

    let filtered = filters.filter(&items);
    let expected: Vec<&str> = vec!["run.exe", "run.bat", "docs.exe"];

    assert_eq!(filtered, expected);
}

#[test]
fn filter_paths() {
    let filters = filters();

    let items = vec![
        PathBuf::from("run.exe"),
        PathBuf::from("run.bat"),
        PathBuf::from("run.com"),
        PathBuf::from("setup.exe"),
        PathBuf::from("setup.bat"),
        PathBuf::from("setup.com"),
        PathBuf::from("docs.exe"),
        PathBuf::from("docs.bat"),
        PathBuf::from("docs.com"),
    ];
    let texts: Vec<&str> = items.iter().map(|item| item.to_str().unwrap()).collect();

    let filtered: Vec<PathBuf> = filters.filter(&texts).iter().map(PathBuf::from).collect();
    let expected = vec![
        PathBuf::from("run.exe"),
        PathBuf::from("run.bat"),
        PathBuf::from("docs.exe"),
    ];

    assert_eq!(filtered, expected);
}

#[test]
fn filter_ignores_case_and_order_of_patterns() {
    let filters = filters();
    let items = vec!["RUN.EXE", "Setup.exe", "notes.txt", "DOCS.BAT", "game.Bat"];
    assert_eq!(filters.filter(&items), vec!["RUN.EXE", "game.Bat"]);
}

#[test]
fn filter_without_includes_keeps_nothing() {
    let filters = Filters { includes: vec![], excludes: vec![] };
    let items = vec!["run.exe"];
    assert!(filters.filter(&items).is_empty());
    assert!(filters.filter(&[]).is_empty());
}

#[test]
fn pattern_that_does_not_build_is_an_error() {
    match Pattern::new("(unclosed") {
        Ok(_) => panic!("the pattern should not build"),
        Err(error) => {
            assert_eq!(error.pattern, "(unclosed");
            assert!(!error.reason.is_empty());
            assert_eq!(
                error.message(),
                format!("Failed deserialising regex: '{}'", error.reason)
            );
        }
    }
    assert!(rxr::pattern::compile_all(&vec!["a".to_string(), "[".to_string()]).is_err());
    let built = rxr::pattern::compile_all(&vec!["a".to_string(), "b+".to_string()]);
    match built {
        Ok(patterns) => {
            assert_eq!(patterns.len(), 2);
            assert_eq!(patterns[1].as_str(), "b+");
        }
        Err(_) => panic!("both patterns build"),
    }
}

#[test]
fn pattern_matches_anywhere_without_regard_to_case() {
    let exe = pattern("\\.exe$");
    assert!(exe.is_match("run.exe"));
    assert!(exe.is_match("RUN.EXE"));
    assert!(!exe.is_match("run.exe.bak"));
    assert!(!exe.is_match("run.bat"));
    assert!(rxr::pattern::any_match(&vec![pattern("x"), pattern("b")], "abc"));
    assert!(!rxr::pattern::any_match(&vec![pattern("x"), pattern("y")], "abc"));
    assert!(!rxr::pattern::any_match(&vec![], "abc"));
}
