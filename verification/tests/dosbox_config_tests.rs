use rxr::dict::Dict;
use rxr::dosbox_config::DosboxConfig;

use std::collections::HashMap;

fn to_owned_map(pairs: &[(&str, &str)]) -> HashMap<String, String> {
    pairs.iter().map(|(key, val)| (String::from(*key), String::from(*val))).collect()
}

fn settings_of(config: &DosboxConfig) -> HashMap<String, HashMap<String, String>> {
    let mut out = HashMap::new();
    for i in 0..config.settings.len() {
        let section = config.settings.value(i);
        let mut inner = HashMap::new();
        for j in 0..section.len() {
            inner.insert(section.key(j).clone(), section.value(j).clone());
        }
        out.insert(config.settings.key(i).clone(), inner);
    }
    out
}

fn section(pairs: &[(&str, &str)]) -> Dict<String> {
    let mut out = Dict::new();
    for (key, val) in pairs.iter() {
        out.insert(String::from(*key), String::from(*val));
    }
    out
}

fn parsed(text: &str) -> DosboxConfig {
    let lines: Vec<&str> = text.split("\n").collect();
    DosboxConfig::parse(lines.as_slice())
}

#[test]
fn parsing_a_config_file() {
    let config_a = String::from(
        r#" [render]
                # never scale
                scaler=none

                [cpu]
                # Always use dynamic core.
                core=dynamic

                [midi]
                # Port for midi server.
                midiconfig=128:0

                [sblaster]
                irq=7
                dma=1
                hdma=5
                
                [autoexec]
                # No configuration
                "#,
    );

    let config_b = String::from(
        r#" [sblaster]
                # Program is configured for IRQ=5
                irq=5

                [ipx]
                # ipx -- Enable ipx over UDP/IP emulation.
                ipx=false

                [autoexec]
                # Lines in this section will be run at startup.
                @echo off
                mount c "..\game"
                imgmount d "..\game\game.iso" -t iso -fs iso
                c:
                cls
                game.exe
                exit"#,
    );

    let lines_a: Vec<&str> = config_a.split("\n").collect();
    let lines_b: Vec<&str> = config_b.split("\n").collect();

    let config_a = DosboxConfig::parse(lines_a.as_slice());
    let config_b = DosboxConfig::parse(lines_b.as_slice());

    let merged = config_a.merge(&config_b);

    let expected_autoexec: Vec<String> = vec![
        "@echo off",
        "mount c \"../game\"",
        "imgmount d \"../game/game.iso\" -t iso -fs iso",
        "c:",
        "cls",
        "game.exe",
        "exit",
    ].iter()
        .map(|s| String::from(*s))
        .collect();
    let mut expected_settings = HashMap::new();
    expected_settings.insert(String::from("render"), to_owned_map(&[("scaler", "none")]));
    expected_settings.insert(String::from("cpu"), to_owned_map(&[("core", "dynamic")]));
    expected_settings.insert(String::from("midi"), to_owned_map(&[("midiconfig", "128:0")]));
    expected_settings.insert(
        String::from("sblaster"),
        to_owned_map(&[("irq", "5"), ("dma", "1"), ("hdma", "5")]),
    );
    expected_settings.insert(String::from("ipx"), to_owned_map(&[("ipx", "false")]));

    assert_eq!(merged.autoexec, expected_autoexec);
    assert_eq!(settings_of(&merged), expected_settings);

    let written = merged.lines();
    let lines: Vec<&str> = written.iter().map(|line| line.as_str()).collect();
    let file = DosboxConfig::parse(lines.as_slice());

    assert_eq!(merged.autoexec, file.autoexec);
    assert_eq!(settings_of(&merged), settings_of(&file));
}

#[test]
fn merge_lets_the_overlay_win() {
    let mut base = DosboxConfig::new();
    base.settings.insert(String::from("sblaster"), section(&[("irq", "7")]));
    base.autoexec.push(String::from("mount c ."));
    let mut overlay = DosboxConfig::new();
    overlay.settings.insert(String::from("sblaster"), section(&[("irq", "5")]));
    overlay.autoexec.push(String::from("game.exe"));

    let merged = base.merge(&overlay);
    let mut expected = HashMap::new();
    expected.insert(String::from("sblaster"), to_owned_map(&[("irq", "5")]));
    assert_eq!(settings_of(&merged), expected);
    assert_eq!(merged.autoexec, vec!["mount c .", "game.exe"]);

    let back = overlay.merge(&base);
    let mut expected_back = HashMap::new();
    expected_back.insert(String::from("sblaster"), to_owned_map(&[("irq", "7")]));
    assert_eq!(settings_of(&back), expected_back);
    assert_eq!(back.autoexec, vec!["game.exe", "mount c ."]);
}

#[test]
fn merge_keeps_what_the_overlay_does_not_touch() {
    let base = parsed("[a]\nx=1\ny=2\n[b]\nz=3");
    let overlay = parsed("[a]\ny=9\nw=8\n[c]\nv=7");
    let merged = base.merge(&overlay);
    let mut expected = HashMap::new();
    expected.insert(String::from("a"), to_owned_map(&[("x", "1"), ("y", "9"), ("w", "8")]));
    expected.insert(String::from("b"), to_owned_map(&[("z", "3")]));
    expected.insert(String::from("c"), to_owned_map(&[("v", "7")]));
    assert_eq!(settings_of(&merged), expected);
    assert!(merged.autoexec.is_empty());
    assert_eq!(settings_of(&base.merge(&DosboxConfig::new())), settings_of(&base));
    assert_eq!(settings_of(&DosboxConfig::new().merge(&base)), settings_of(&base));
}

#[test]
fn a_round_trip_loses_nothing() {
    let texts = [
        "",
        "[render]\nscaler = none\n\n[autoexec]\nmount c \"..\\game\"\nc:\n",
        "x=1\n[a]\nk = v = w\n k2=v2 \n[autoexec]\nfirst\n[b]\nlast=1\n[autoexec]\nsecond",
        "[a]\n=x=y\nab\n[ ]\nq=1\n[a]b]\nr = 2",
        "[autoexec]\n# comment\n\\\\server\\share\n",
    ];
    for text in texts.iter() {
        let first = parsed(text);
        let written = first.lines();
        let lines: Vec<&str> = written.iter().map(|line| line.as_str()).collect();
        let second = DosboxConfig::parse(lines.as_slice());
        assert_eq!(first.autoexec, second.autoexec, "{:?}", text);
        assert_eq!(settings_of(&first), settings_of(&second), "{:?}", text);
    }
}

#[test]
fn lines_are_written_section_by_section() {
    let config = parsed("[b]\ny = 2\n[autoexec]\nrun\n[a]\nx=1\n[b]\nz=3");
    assert_eq!(config.lines(), vec!["[b]", "y=2", "z=3", "[a]", "x=1", "[autoexec]", "run"]);
    assert_eq!(DosboxConfig::new().lines(), vec!["[autoexec]"]);
}

#[test]
fn lines_before_the_first_section_are_passed_over() {
    let config = parsed("a=1\nrun\n[s]\nb=2");
    let mut expected = HashMap::new();
    expected.insert(String::from("s"), to_owned_map(&[("b", "2")]));
    assert_eq!(settings_of(&config), expected);
    assert!(config.autoexec.is_empty());
}

#[test]
fn a_later_setting_replaces_an_earlier_one() {
    let config = parsed("[s]\nk=1\nk=2\n[t]\nk=3\n[s]\nk=4");
    let mut expected = HashMap::new();
    expected.insert(String::from("s"), to_owned_map(&[("k", "4")]));
    expected.insert(String::from("t"), to_owned_map(&[("k", "3")]));
    assert_eq!(settings_of(&config), expected);
}

#[test]
fn comments_start_with_a_hash() {
    let config = parsed("[s]\n# k=1\n   #k=2\nk=3 # kept\n[autoexec]\n#skipped\necho #1");
    let mut expected = HashMap::new();
    expected.insert(String::from("s"), to_owned_map(&[("k", "3 # kept")]));
    assert_eq!(settings_of(&config), expected);
    assert_eq!(config.autoexec, vec!["echo #1"]);
}

#[test]
fn commands_get_slashes_for_backslashes() {
    assert_eq!(DosboxConfig::command_from("mount c \"..\\game\""), "mount c \"../game\"");
    assert_eq!(DosboxConfig::command_from("\\\\a\\"), "//a/");
    assert_eq!(DosboxConfig::command_from("plain"), "plain");
    assert_eq!(DosboxConfig::command_from(""), "");
}

#[test]
fn settings_are_read_as_the_pattern_reads_them() {
    let pattern = regex::Regex::new("(.+?)\\s*=\\s*(.+)").unwrap();
    let lines = [
        "irq=7",
        "a b = c",
        "a  =  b c ",
        "=a=b",
        "==x",
        "novalue=",
        "x",
        "",
        "=",
        "a=",
        "=a",
        "a==",
        "a = = b",
        " a=b",
        "  = x",
        "a= ",
        "a =\t b",
        "key=value=more",
        "día = año",
        "a\u{a0}=\u{3000}b",
        "[x]=1",
    ];
    for line in lines.iter() {
        let expected = pattern.captures(line).map(|caps| {
            (caps.get(1).unwrap().as_str().to_string(), caps.get(2).unwrap().as_str().to_string())
        });
        assert_eq!(DosboxConfig::setting_from(line), expected, "{:?}", line);
    }
}

#[test]
fn named_settings() {
    assert_eq!(
        DosboxConfig::setting_from("irq=7"),
        Some((String::from("irq"), String::from("7")))
    );
    assert_eq!(
        DosboxConfig::setting_from("a b = c d"),
        Some((String::from("a b"), String::from("c d")))
    );
    assert_eq!(DosboxConfig::setting_from("novalue="), None);
    assert_eq!(DosboxConfig::setting_from("nothing here"), None);
}

#[test]
fn sections_are_opened_as_the_pattern_opens_them() {
    let pattern = regex::Regex::new("\\[(.+)\\]").unwrap();
    let lines = [
        "[render]",
        "[a]b]",
        "[[x]",
        "x[a]y",
        "[]",
        "[ ]",
        "]a[",
        "[a",
        "a]",
        "][b]",
        "[a][b]",
        "a=[1]",
        "[]]",
        "[[]",
        "plain",
    ];
    for line in lines.iter() {
        let expected = pattern.captures(line).map(|caps| caps.get(1).unwrap().as_str().to_string());
        let config = DosboxConfig::parse(&["[first]", line, "k=v"]);
        let opened = if config.settings.len() == 1 {
            Some(config.settings.key(0).clone())
        } else {
            None
        };
        let section = match expected {
            Some(name) => name,
            None => String::from("first"),
        };
        if section == "autoexec" {
            assert_eq!(opened, None, "{:?}", line);
        } else {
            assert_eq!(opened, Some(section), "{:?}", line);
        }
    }
}

#[test]
fn the_empty_configuration() {
    let config = DosboxConfig::new();
    assert!(config.autoexec.is_empty());
    assert_eq!(config.settings.len(), 0);
    let none = DosboxConfig::parse(&[]);
    assert!(none.autoexec.is_empty());
    assert_eq!(none.settings.len(), 0);
}
