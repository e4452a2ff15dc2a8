use rxr::path::{extension_of, file_name_of, file_stem_of, parent_of};

use std::path::Path;

fn samples() -> Vec<String> {
    let pieces = ["", "/", ".", "..", "a", "b.c", ".hid", "x.tar.gz", "//", "./", "/.", "d."];
    let mut out: Vec<String> = vec![];
    for first in pieces.iter() {
        out.push(first.to_string());
        for second in pieces.iter() {
            out.push(format!("{}{}", first, second));
            out.push(format!("{}/{}", first, second));
            for third in pieces.iter() {
                out.push(format!("{}/{}/{}", first, second, third));
                out.push(format!("{}{}/{}", first, second, third));
            }
        }
    }
    out.push(String::from("/tmp/rxr/Game"));
    out.push(String::from("archive.zip"));
    out.push(String::from("/home/user/games/foo_v1.zip"));
    out.push(String::from("dir.d/file"));
    out.push(String::from("días/año.txt"));
    out
}

#[test]
fn file_names_are_those_of_the_standard_library() {
    for path in samples() {
        assert_eq!(file_name_of(&path), Path::new(&path).file_name().map(|s| s.to_str().unwrap().to_string()), "{:?}", path);
    }
}

#[test]
fn extensions_are_those_of_the_standard_library() {
    for path in samples() {
        assert_eq!(extension_of(&path), Path::new(&path).extension().map(|s| s.to_str().unwrap().to_string()), "{:?}", path);
    }
}

#[test]
fn file_stems_are_those_of_the_standard_library() {
    for path in samples() {
        assert_eq!(file_stem_of(&path), Path::new(&path).file_stem().map(|s| s.to_str().unwrap().to_string()), "{:?}", path);
    }
}

#[test]
fn parents_are_those_of_the_standard_library() {
    for path in samples() {
        let expected = Path::new(&path).parent().map(|p| p.to_str().unwrap().to_string());
        assert_eq!(parent_of(&path), expected, "{:?}", path);
    }
}

#[test]
fn named_paths() {
    assert_eq!(file_name_of("/usr/bin/"), Some(String::from("bin")));
    assert_eq!(file_name_of("foo.txt/.."), None);
    assert_eq!(extension_of("archive.zip"), Some(String::from("zip")));
    assert_eq!(extension_of(".profile"), None);
    assert_eq!(extension_of("x.tar.gz"), Some(String::from("gz")));
    assert_eq!(file_stem_of("/a/foo_v1.zip"), Some(String::from("foo_v1")));
    assert_eq!(parent_of("/tmp/rxr/Game"), Some(String::from("/tmp/rxr")));
    assert_eq!(parent_of("/tmp"), Some(String::from("/")));
    assert_eq!(parent_of("game.exe"), Some(String::new()));
    assert_eq!(parent_of("/"), None);
    assert_eq!(parent_of(""), None);
}

#[test]
fn prefixes_are_stripped_as_the_standard_library_strips_them() {
    let bases = [
        "", "/", ".", "..", "a", "a/", "/a", "./a", "a/b", "a//b/", "/a/./b", "b.c", "a/.", "x",
        "./", "//", "/tmp/x", "a/..",
    ];
    let mut paths = samples();
    for extra in ["a/b/c", "/a/b/c/", "a//b/./c/.", "./a/b", "/tmp/x/a/b.exe", "/tmp/xx/a", "a/../b"] {
        paths.push(extra.to_string());
    }
    for path in paths.iter() {
        for base in bases.iter() {
            let expected =
                Path::new(path).strip_prefix(base).ok().map(|p| p.to_str().unwrap().to_string());
            assert_eq!(
                rxr::path::strip_prefix_of(path, base),
                expected,
                "{:?} without {:?}",
                path,
                base
            );
        }
    }
}

#[test]
fn paths_are_made_relative_until_one_is_elsewhere() {
    let mut paths = vec![
        String::from("/tmp/x/run.exe"),
        String::from("/tmp/x/bin//setup.exe"),
        String::from("/tmp/x"),
    ];
    assert!(rxr::utils::strip_prefix(&mut paths, "/tmp/x/").is_ok());
    assert_eq!(paths, vec!["run.exe", "bin//setup.exe", ""]);

    let mut mixed = vec![
        String::from("/tmp/x/a"),
        String::from("/tmp/xx/b"),
        String::from("/tmp/x/c"),
    ];
    match rxr::utils::strip_prefix(&mut mixed, "/tmp/x") {
        Ok(_) => panic!("the second path lies elsewhere"),
        Err(error) => {
            assert_eq!(error.path, "/tmp/xx/b");
            assert_eq!(error.prefix, "/tmp/x");
            assert_eq!(error.message(), "prefix not found: /tmp/x in /tmp/xx/b");
        }
    }
    assert_eq!(mixed, vec!["a", "/tmp/xx/b", "/tmp/x/c"]);

    let mut none: Vec<String> = vec![];
    assert!(rxr::utils::strip_prefix(&mut none, "/").is_ok());
}
