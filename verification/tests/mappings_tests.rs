use rxr::dict::Dict;
use rxr::mappings::Mappings;

#[test]
fn insertion_order_decides_what_a_value_resolves() {
    let mut table = Mappings::new();
    table.insert("tmp", "/tmp/rxr");
    table.insert("archive.name", "Game");
    table.insert("target", "{tmp}/{archive.name}");
    assert_eq!(table.get("target").unwrap(), "/tmp/rxr/Game");

    let mut early = Mappings::new();
    early.insert("tmp", "/tmp/rxr");
    early.insert("target", "{tmp}/{archive.name}");
    early.insert("archive.name", "Game");
    assert_eq!(early.get("target").unwrap(), "/tmp/rxr/{archive.name}");
}

#[test]
fn insert_returns_the_table_and_strips_double_quotes() {
    let mut table = Mappings::new();
    let same = table.insert("\"quoted\"", "\"a b\"");
    assert_eq!(same.get("quoted").unwrap(), "a b");
    assert!(table.get("\"quoted\"").is_none());
    assert!(table.get("other").is_none());
}

#[test]
fn replace_all_leaves_unknown_placeholders() {
    let mut table = Mappings::new();
    table.insert("a", "1");
    table.insert("b", "2");
    assert_eq!(table.replace_all("{a}{b}{c}{a"), "12{c}{a");
    assert_eq!(table.replace_all("\"{a}\" and {b}{b}"), "1 and 22");
    assert_eq!(Mappings::new().replace_all("{a}"), "{a}");
    assert_eq!(table.replace_all(""), "");
}

#[test]
fn mappings_are_substituted_in_the_order_of_their_keys() {
    let mut table = Mappings::new();
    table.insert("x", "{y}");
    table.insert("y", "Z");
    assert_eq!(table.get("x").unwrap(), "{y}");
    assert_eq!(table.replace_all("{x}"), "Z");

    let mut other = Mappings::new();
    other.insert("y", "{x}");
    other.insert("x", "Z");
    assert_eq!(other.replace_all("{x}{y}"), "ZZ");
    assert_eq!(other.replace_all("{y}"), "Z");
}

#[test]
fn a_key_that_is_inserted_again_keeps_its_place() {
    let mut table = Mappings::new();
    table.insert("a", "1");
    table.insert("b", "{a}");
    table.insert("a", "{b}{b}");
    assert_eq!(table.get("a").unwrap(), "11");
    assert_eq!(table.get("b").unwrap(), "1");
    assert_eq!(table.replace_all("{b}-{a}"), "1-11");
}

#[test]
fn replace_keeps_double_quotes() {
    let mut table = Mappings::new();
    table.insert("a", "1");
    let mut text = String::from("\"{a}\"");
    table.replace(&mut text);
    assert_eq!(text, "\"1\"");
}

#[test]
fn replace_vec_and_map_substitute_each_value() {
    let mut table = Mappings::new();
    table.insert("archive", "game.zip");
    table.insert("target", "/tmp/game");

    let mut args = vec![String::from("{archive}"), String::from("-d"), String::from("{target}/x")];
    table.replace_vec(&mut args);
    assert_eq!(args, vec!["game.zip", "-d", "/tmp/game/x"]);

    let mut empty: Vec<String> = vec![];
    table.replace_vec(&mut empty);
    assert!(empty.is_empty());

    let mut evars: Dict<String> = Dict::new();
    evars.insert(String::from("HOME"), String::from("{target}"));
    evars.insert(String::from("{archive}"), String::from("{archive}"));
    table.replace_map(&mut evars);
    assert_eq!(evars.len(), 2);
    assert_eq!(evars.get("HOME").unwrap(), "/tmp/game");
    assert_eq!(evars.get("{archive}").unwrap(), "game.zip");
    assert_eq!(evars.key(0), "HOME");
}
