//! Writing a configuration text and reading it again: what was read from a
//! text is read again from the lines that are written of it.

use vstd::prelude::*;

use crate::dict::{lemma_position_of, lemma_position_of_at, position_of, Dict};
use crate::dosbox_config::{
    command_of, header, overlay, is_comment, read_line, read_lines, section_lines, section_name,
    setting_lines, setting_of, settings_of, Content, DosboxConfig,
};
use crate::text::{
    index_of, is_whitespace, last_index_of, lemma_index_of_bounds, lemma_index_of_is,
    lemma_last_index_of_bounds, lemma_trim_end_dropped, lemma_trim_start_dropped, lemma_trimmed,
    occurs_at, trim, trim_end, trim_start,
};

verus! {

/// A line that is read as it stands: it is its own `trim`, not empty, no
/// comment and no section header.
pub open spec fn plain_line(line: Seq<char>) -> bool {
    &&& trim(line) == line
    &&& line.len() > 0
    &&& !is_comment(line)
    &&& section_name(line) is None
}

/// A command that is read back as it is written.
pub open spec fn stable_command(command: Seq<char>) -> bool {
    plain_line(command) && command_of(command) == command
}

/// The line that is written of a setting.
pub open spec fn setting_line(key: Seq<char>, value: Seq<char>) -> Seq<char> {
    key + seq!['='] + value
}

/// A setting that is read back as it is written.
pub open spec fn stable_setting(key: Seq<char>, value: Seq<char>) -> bool {
    plain_line(setting_line(key, value)) && setting_of(setting_line(key, value)) == Some(
        (key, value),
    )
}

/// What is read back as it is written: every command and every setting is,
/// no section is without a name or without a setting, and none is called
/// `autoexec`.
pub open spec fn stable(autoexec: Seq<Seq<char>>, settings: Map<Seq<char>, Map<Seq<char>, Seq<char>>>)
    -> bool {
    &&& forall|i: int| 0 <= i < autoexec.len() ==> stable_command(#[trigger] autoexec[i])
    &&& forall|name: Seq<char>| #[trigger]
        settings.contains_key(name) ==> {
            &&& name.len() > 0
            &&& name != "autoexec"@
            &&& exists|key: Seq<char>| settings[name].contains_key(key)
            &&& forall|key: Seq<char>| #[trigger]
                settings[name].contains_key(key) ==> stable_setting(key, settings[name][key])
        }
}

/// `state` after the lines `lines`.
pub open spec fn read_from(state: Content, lines: Seq<Seq<char>>) -> Content
    decreases lines.len(),
{
    if lines.len() == 0 {
        state
    } else {
        read_line(read_from(state, lines.drop_last()), lines.last())
    }
}

/// The state in which the reading of a text starts.
pub open spec fn blank() -> Content {
    Content { section: None, autoexec: Seq::empty(), settings: Map::empty() }
}

/// Reading a text is reading its lines from the blank state.
proof fn lemma_read_lines_from(lines: Seq<Seq<char>>)
    ensures
        read_lines(lines) == read_from(blank(), lines),
    decreases lines.len(),
{
    if lines.len() > 0 {
        lemma_read_lines_from(lines.drop_last());
    }
}

/// Reading two lists of lines in a row is reading the second from where
/// the first has led.
proof fn lemma_read_from_concat(state: Content, first: Seq<Seq<char>>, second: Seq<Seq<char>>)
    ensures
        read_from(state, first + second) == read_from(read_from(state, first), second),
    decreases second.len(),
{
    if second.len() == 0 {
        assert(first + second =~= first);
    } else {
        assert((first + second).drop_last() =~= first + second.drop_last());
        assert((first + second).last() == second.last());
        lemma_read_from_concat(state, first, second.drop_last());
    }
}

/// Reading a single line.
proof fn lemma_read_one(state: Content, line: Seq<char>)
    ensures
        read_from(state, seq![line]) == read_line(state, line),
{
    let one = seq![line];
    assert(one.drop_last() =~= Seq::<Seq<char>>::empty());
    assert(one.last() == line);
    assert(read_from(state, one.drop_last()) == state);
}

/// A command is its line with a slash for each backslash.
proof fn lemma_command_chars(line: Seq<char>)
    ensures
        command_of(line).len() == line.len(),
        forall|i: int|
            0 <= i < line.len() ==> #[trigger] command_of(line)[i] == (if line[i] == '\\' {
                '/'
            } else {
                line[i]
            }),
    decreases line.len(),
{
    let from = seq!['\\'];
    let to = seq!['/'];
    if line.len() > 0 {
        let rest = line.skip(1);
        lemma_command_chars(rest);
        assert(occurs_at(line, 0, from) == (line[0] == '\\')) by {
            if line[0] == '\\' {
                assert(line.subrange(0, 1) =~= from);
            } else {
                assert(line.subrange(0, 1)[0] == line[0]);
                assert(from[0] == '\\');
            }
        }
        assert(command_of(line) == (if line[0] == '\\' {
            to + command_of(rest)
        } else {
            seq![line[0]] + command_of(rest)
        }));
        assert forall|i: int| 0 <= i < line.len() implies #[trigger] command_of(line)[i] == (
        if line[i] == '\\' {
            '/'
        } else {
            line[i]
        }) by {
            if i > 0 {
                assert(command_of(line)[i] == command_of(rest)[i - 1]);
                assert(rest[i - 1] == line[i]);
            }
        }
    }
}

/// Texts that hold `c` at the same places have it first and last at the
/// same place.
proof fn lemma_same_places(a: Seq<char>, b: Seq<char>, c: char)
    requires
        a.len() == b.len(),
        forall|i: int| 0 <= i < a.len() ==> (a[i] == c) == (b[i] == c),
    ensures
        index_of(a, c) == index_of(b, c),
        last_index_of(a, c) == last_index_of(b, c),
{
    lemma_index_of_bounds(a, c);
    lemma_index_of_bounds(b, c);
    lemma_last_index_of_bounds(a, c);
    lemma_last_index_of_bounds(b, c);
    let ia = index_of(a, c);
    let ib = index_of(b, c);
    if ia < ib {
        assert(b[ia] != c);
    }
    if ib < ia {
        assert(a[ib] != c);
    }
    let la = last_index_of(a, c);
    let lb = last_index_of(b, c);
    if la < lb {
        assert(a[lb] != c);
    }
    if lb < la {
        assert(b[la] != c);
    }
}

/// The command of a plain line is read back as it is written.
proof fn lemma_command_stable(line: Seq<char>)
    requires
        plain_line(line),
    ensures
        stable_command(command_of(line)),
{
    let command = command_of(line);
    lemma_command_chars(line);
    lemma_command_chars(command);
    lemma_trimmed(line);
    lemma_trimmed(command);
    assert(command[0] == (if line[0] == '\\' {
        '/'
    } else {
        line[0]
    }));
    assert(command.last() == command[line.len() - 1]);
    assert(command_of(command) =~= command);
    lemma_same_places(line, command, '[');
    lemma_same_places(line, command, ']');
    assert(command.subrange(0, 0).len() == 0);
}

/// The header of a section with a name opens that section.
proof fn lemma_header_reads(name: Seq<char>)
    requires
        name.len() > 0,
    ensures
        trim(header(name)) == header(name),
        header(name).len() > 0,
        !is_comment(header(name)),
        section_name(header(name)) == Some(name),
{
    let h = header(name);
    assert(h[0] == '[');
    assert(h.last() == ']');
    lemma_trimmed(h);
    lemma_index_of_is(h, '[', 0);
    lemma_last_index_of_bounds(h, ']');
    assert(last_index_of(h, ']') == h.len() - 1);
    assert(h.subrange(1, h.len() - 1) =~= name);
}

/// The setting of a plain line is read back as it is written.
proof fn lemma_setting_stable(line: Seq<char>)
    requires
        plain_line(line),
        setting_of(line) is Some,
    ensures
        match setting_of(line) {
            Some((key, value)) => stable_setting(key, value),
            None => true,
        },
{
    let (key, value) = setting_of(line)->0;
    let at = 1 + index_of(line.skip(1), '=');
    let head = line.subrange(0, at);
    let tail = line.subrange(at + 1, line.len() as int);
    lemma_index_of_bounds(line.skip(1), '=');
    lemma_trimmed(line);
    lemma_trim_end_dropped(head);
    lemma_trim_start_dropped(tail);
    assert(line[at] == line.skip(1)[at - 1]);
    assert(line[at] == '=');
    let a = trim_end(head).len() as int;
    let b = tail.len() - trim_start(tail).len();
    assert(a >= 1) by {
        if a == 0 {
            assert(is_whitespace(head[0]));
            assert(head[0] == line[0]);
        }
    }
    assert(b < tail.len()) by {
        if b >= tail.len() {
            assert(is_whitespace(tail[tail.len() - 1]));
            assert(tail[tail.len() - 1] == line.last());
        }
    }
    assert(key == head.take(a));
    assert(value == tail.skip(b));
    assert(key =~= line.subrange(0, a));
    assert(value =~= line.subrange(at + 1 + b, line.len() as int));
    assert(key.last() == trim_end(head).last());
    assert(value[0] == trim_start(tail)[0]);
    assert(value.last() == line.last());
    assert(key[0] == line[0]);

    let written = setting_line(key, value);
    assert(written.len() == a + 1 + value.len());
    assert(written[0] == key[0]);
    assert(written.last() == value.last());
    assert(written[a] == '=');
    lemma_trimmed(written);
    lemma_trimmed(key);
    lemma_trimmed(value);
    assert(trim_end(key) == key);
    assert(trim_start(value) == value);

    // the `=` that parts the written line is the one after the key
    assert forall|i: int| 0 <= i < a - 1 implies written.skip(1)[i] != '=' by {
        assert(written.skip(1)[i] == key[i + 1]);
        assert(key[i + 1] == line[i + 1]);
        assert(line[i + 1] == line.skip(1)[i]);
    }
    assert(written.skip(1)[a - 1] == '=');
    lemma_index_of_is(written.skip(1), '=', a - 1);
    assert(written.subrange(0, a) =~= key);
    assert(written.subrange(a + 1, written.len() as int) =~= value);
    assert(setting_of(written) == Some((key, value)));

    // a header in the written line would be one in the line that was read
    lemma_index_of_bounds(written, '[');
    lemma_last_index_of_bounds(written, ']');
    lemma_index_of_bounds(line, '[');
    lemma_last_index_of_bounds(line, ']');
    let open = index_of(written, '[');
    let close = last_index_of(written, ']');
    if open + 2 <= close {
        let from = if open < a {
            open
        } else if open == a {
            at
        } else {
            open + (at + b - a)
        };
        let to = if close < a {
            close
        } else if close == a {
            at
        } else {
            close + (at + b - a)
        };
        assert(line[from] == written[open]);
        assert(line[to] == written[close]);
        assert(to >= from + 2);
        assert(index_of(line, '[') <= from);
        assert(last_index_of(line, ']') >= to);
    }
}

/// What has been read of any lines is read back as it is written.
pub proof fn lemma_read_is_stable(lines: Seq<Seq<char>>)
    ensures
        stable(read_lines(lines).autoexec, read_lines(lines).settings),
        read_lines(lines).section is Some ==> read_lines(lines).section->0.len() > 0,
    decreases lines.len(),
{
    if lines.len() > 0 {
        let before = read_lines(lines.drop_last());
        lemma_read_is_stable(lines.drop_last());
        let line = trim(lines.last());
        let after = read_line(before, lines.last());
        crate::text::lemma_trim_shape(lines.last());
        if line.len() == 0 || is_comment(line) {
        } else if section_name(line) is Some {
            lemma_index_of_bounds(line, '[');
            lemma_last_index_of_bounds(line, ']');
        } else if before.section is None {
        } else if before.section->0 == "autoexec"@ {
            lemma_command_stable(line);
            assert forall|i: int| 0 <= i < after.autoexec.len() implies stable_command(
                #[trigger] after.autoexec[i],
            ) by {
                if i < before.autoexec.len() {
                    assert(after.autoexec[i] == before.autoexec[i]);
                }
            }
        } else if setting_of(line) is Some {
            lemma_setting_stable(line);
            let name = before.section->0;
            let (key, value) = setting_of(line)->0;
            let inner = settings_of(before.settings, name).insert(key, value);
            assert(after.settings == before.settings.insert(name, inner));
            assert forall|other: Seq<char>| #[trigger]
                after.settings.contains_key(other) implies {
                &&& other.len() > 0
                &&& other != "autoexec"@
                &&& exists|k: Seq<char>| after.settings[other].contains_key(k)
                &&& forall|k: Seq<char>| #[trigger]
                    after.settings[other].contains_key(k) ==> stable_setting(
                        k,
                        after.settings[other][k],
                    )
            } by {
                if other == name {
                    assert(after.settings[other] == inner);
                    assert(inner.contains_key(key));
                    assert(stable_setting(key, value));
                    assert(name.len() > 0);
                    assert forall|k: Seq<char>| #[trigger]
                        inner.contains_key(k) implies stable_setting(k, inner[k]) by {
                        if k != key {
                            assert(before.settings.contains_key(name));
                            assert(before.settings[name].contains_key(k));
                            assert(inner[k] == before.settings[name][k]);
                        }
                    }
                } else {
                    assert(before.settings.contains_key(other));
                    assert(after.settings[other] == before.settings[other]);
                    let k = choose|k: Seq<char>| before.settings[other].contains_key(k);
                    assert(after.settings[other].contains_key(k));
                }
            }
        }
    }
}

/// The settings of the first `count` sections of `settings`.
pub open spec fn leading_sections(settings: Dict<Dict<String>>, count: int) -> Map<
    Seq<char>,
    Map<Seq<char>, Seq<char>>,
> {
    Map::new(
        |name: Seq<char>| settings.keys().take(count).contains(name),
        |name: Seq<char>| settings.values()[position_of(settings.keys(), name)].text_map(),
    )
}

/// The first `count` settings of a section.
pub open spec fn leading_settings(section: Dict<String>, count: int) -> Map<Seq<char>, Seq<char>> {
    Map::new(
        |key: Seq<char>| section.keys().take(count).contains(key),
        |key: Seq<char>| section.texts()[position_of(section.keys(), key)],
    )
}

/// One more element is in `take(count + 1)` than in `take(count)`.
proof fn lemma_take_contains(keys: Seq<Seq<char>>, count: int, key: Seq<char>)
    requires
        0 <= count < keys.len(),
    ensures
        keys.take(count + 1).contains(key) == (keys.take(count).contains(key) || key
            == keys[count]),
{
    let seen = keys.take(count);
    let next = keys.take(count + 1);
    if seen.contains(key) {
        let j = choose|j: int| 0 <= j < seen.len() && seen[j] == key;
        assert(next[j] == key);
    }
    if next.contains(key) {
        let j = choose|j: int| 0 <= j < next.len() && next[j] == key;
        if j < count {
            assert(seen[j] == key);
        }
    }
    if key == keys[count] {
        assert(next[count] == key);
    }
}

/// An element of `take(count)` stands before `count`.
proof fn lemma_take_position(keys: Seq<Seq<char>>, count: int, key: Seq<char>)
    requires
        0 <= count <= keys.len(),
        keys.no_duplicates(),
        keys.take(count).contains(key),
    ensures
        0 <= position_of(keys, key) < count,
        keys[position_of(keys, key)] == key,
{
    let seen = keys.take(count);
    let j = choose|j: int| 0 <= j < seen.len() && seen[j] == key;
    assert(keys[j] == key);
    lemma_position_of_at(keys, j);
}

/// Reading the settings of a section, after its header, stores them.
proof fn lemma_read_settings(state: Content, name: Seq<char>, section: Dict<String>, count: int)
    requires
        section.wf(),
        0 <= count <= section.keys().len(),
        state.section == Some(name),
        name != "autoexec"@,
        !state.settings.contains_key(name),
        forall|j: int|
            0 <= j < section.keys().len() ==> stable_setting(
                #[trigger] section.keys()[j],
                section.texts()[j],
            ),
    ensures
        read_from(
            state,
            setting_lines(section.keys(), section.texts()).take(count),
        ) == (Content {
            section: Some(name),
            autoexec: state.autoexec,
            settings: if count == 0 {
                state.settings
            } else {
                state.settings.insert(name, leading_settings(section, count))
            },
        }),
    decreases count,
{
    let lines = setting_lines(section.keys(), section.texts());
    section.lemma_wf();
    if count > 0 {
        lemma_read_settings(state, name, section, count - 1);
        let before = read_from(state, lines.take(count - 1));
        assert(lines.take(count).drop_last() =~= lines.take(count - 1));
        let key = section.keys()[count - 1];
        let value = section.texts()[count - 1];
        assert(lines.take(count).last() == setting_line(key, value));
        assert(stable_setting(key, value));
        let had = settings_of(before.settings, name);
        assert(had =~= (if count == 1 {
            Map::<Seq<char>, Seq<char>>::empty()
        } else {
            leading_settings(section, count - 1)
        })) by {
            if count == 1 {
            } else {
                assert(before.settings.contains_key(name));
            }
        }
        lemma_position_of_at(section.keys(), count - 1);
        assert(had.insert(key, value) =~= leading_settings(section, count)) by {
            assert forall|k: Seq<char>|
                section.keys().take(count).contains(k) == (section.keys().take(
                    count - 1,
                ).contains(k) || k == key) by {
                lemma_take_contains(section.keys(), count - 1, k);
            }
            if count == 1 {
                assert(section.keys().take(0) =~= Seq::<Seq<char>>::empty());
            }
        }
        assert(before.settings.insert(name, had.insert(key, value)) =~= state.settings.insert(
            name,
            leading_settings(section, count),
        ));
    } else {
        assert(lines.take(0) =~= Seq::<Seq<char>>::empty());
    }
}

/// The first settings of a section, when they are all, are its map.
proof fn lemma_leading_settings_all(section: Dict<String>)
    requires
        section.wf(),
    ensures
        leading_settings(section, section.keys().len() as int) == section.text_map(),
{
    section.lemma_wf();
    assert(section.keys().take(section.keys().len() as int) =~= section.keys());
    assert forall|k: Seq<char>| section.has(k) implies #[trigger] section.text_map()[k]
        == section.texts()[position_of(section.keys(), k)] by {
        lemma_position_of(section.keys(), k);
    }
    assert(leading_settings(section, section.keys().len() as int) =~= section.text_map());
}

/// Reading the lines that are written of the first `count` sections gives
/// the settings of these sections.
proof fn lemma_read_sections(config: DosboxConfig, count: int)
    requires
        config.wf(),
        stable(config.commands(), config.sections()),
        0 <= count <= config.settings.keys().len(),
    ensures
        read_from(blank(), section_lines(config.settings, count)).autoexec == Seq::<
            Seq<char>,
        >::empty(),
        read_from(blank(), section_lines(config.settings, count)).settings == leading_sections(
            config.settings,
            count,
        ),
        count > 0 ==> read_from(blank(), section_lines(config.settings, count)).section == Some(
            config.settings.keys()[count - 1],
        ),
    decreases count,
{
    let settings = config.settings;
    settings.lemma_wf();
    if count == 0 {
        assert(settings.keys().take(0) =~= Seq::<Seq<char>>::empty());
        assert(leading_sections(settings, 0) =~= Map::<
            Seq<char>,
            Map<Seq<char>, Seq<char>>,
        >::empty());
    } else {
        lemma_read_sections(config, count - 1);
        let name = settings.keys()[count - 1];
        let section = settings.values()[count - 1];
        let before = read_from(blank(), section_lines(settings, count - 1));
        let lines = setting_lines(section.keys(), section.texts());
        lemma_position_of_at(settings.keys(), count - 1);
        assert(settings.keys().contains(name));
        assert(config.sections().contains_key(name));
        assert(config.sections()[name] == section.text_map());
        section.lemma_wf();

        // the header opens the section
        lemma_header_reads(name);
        let opened = read_line(before, header(name));
        assert(opened == (Content {
            section: Some(name),
            autoexec: before.autoexec,
            settings: before.settings,
        }));
        lemma_read_from_concat(blank(), section_lines(settings, count - 1), seq![header(name)]);
        lemma_read_one(before, header(name));
        assert(!before.settings.contains_key(name)) by {
            if settings.keys().take(count - 1).contains(name) {
                lemma_take_position(settings.keys(), count - 1, name);
            }
        }

        // its settings are stored
        assert forall|j: int| 0 <= j < section.keys().len() implies stable_setting(
            #[trigger] section.keys()[j],
            section.texts()[j],
        ) by {
            let key = section.keys()[j];
            lemma_position_of_at(section.keys(), j);
            assert(section.keys().contains(key));
            assert(section.text_map().contains_key(key));
            assert(section.text_map()[key] == section.texts()[j]);
        }
        assert(section.keys().len() > 0) by {
            let key = choose|key: Seq<char>| config.sections()[name].contains_key(key);
            assert(section.has(key));
        }
        lemma_read_settings(opened, name, section, section.keys().len() as int);
        assert(lines.take(section.keys().len() as int) =~= lines);
        lemma_leading_settings_all(section);
        lemma_read_from_concat(
            blank(),
            section_lines(settings, count - 1) + seq![header(name)],
            lines,
        );
        assert(section_lines(settings, count) == section_lines(settings, count - 1) + seq![
            header(name),
        ] + lines);
        let after = read_from(blank(), section_lines(settings, count));
        assert(after.settings == before.settings.insert(name, section.text_map()));
        assert(before.settings.insert(name, section.text_map()) =~= leading_sections(
            settings,
            count,
        )) by {
            assert forall|other: Seq<char>|
                settings.keys().take(count).contains(other) == (settings.keys().take(
                    count - 1,
                ).contains(other) || other == name) by {
                lemma_take_contains(settings.keys(), count - 1, other);
            }
        }
    }
}

/// Reading commands in `autoexec` stores them as they are.
proof fn lemma_read_commands(state: Content, commands: Seq<Seq<char>>, count: int)
    requires
        state.section == Some("autoexec"@),
        0 <= count <= commands.len(),
        forall|i: int| 0 <= i < commands.len() ==> stable_command(#[trigger] commands[i]),
    ensures
        read_from(state, commands.take(count)) == (Content {
            section: state.section,
            autoexec: state.autoexec + commands.take(count),
            settings: state.settings,
        }),
    decreases count,
{
    if count == 0 {
        assert(commands.take(0) =~= Seq::<Seq<char>>::empty());
        assert(state.autoexec + commands.take(0) =~= state.autoexec);
    } else {
        lemma_read_commands(state, commands, count - 1);
        assert(commands.take(count).drop_last() =~= commands.take(count - 1));
        assert(commands.take(count).last() == commands[count - 1]);
        assert(stable_command(commands[count - 1]));
        assert((state.autoexec + commands.take(count - 1)).push(commands[count - 1])
            =~= state.autoexec + commands.take(count));
    }
}

/// The line `[autoexec]` opens the section `autoexec`.
proof fn lemma_autoexec_header()
    ensures
        "[autoexec]"@ == header("autoexec"@),
        "autoexec"@.len() > 0,
{
    reveal_strlit("[autoexec]");
    reveal_strlit("autoexec");
    assert("[autoexec]"@ =~= header("autoexec"@));
}

/// A configuration in which everything is read back as it is written is
/// read back from the lines that are written of it: the same commands in
/// the same order, and the same settings.
pub proof fn lemma_written_is_read_back(config: DosboxConfig)
    requires
        config.wf(),
        stable(config.commands(), config.sections()),
    ensures
        read_lines(config.written()).autoexec == config.commands(),
        read_lines(config.written()).settings == config.sections(),
{
    let settings = config.settings;
    let n = settings.keys().len() as int;
    let sections = section_lines(settings, n);
    settings.lemma_wf();
    lemma_read_sections(config, n);
    let read = read_from(blank(), sections);
    lemma_autoexec_header();
    lemma_header_reads("autoexec"@);
    lemma_read_from_concat(blank(), sections, seq!["[autoexec]"@]);
    lemma_read_one(read, "[autoexec]"@);
    let opened = read_from(blank(), sections + seq!["[autoexec]"@]);
    assert(opened == (Content {
        section: Some("autoexec"@),
        autoexec: read.autoexec,
        settings: read.settings,
    }));
    lemma_read_commands(opened, config.commands(), config.commands().len() as int);
    assert(config.commands().take(config.commands().len() as int) =~= config.commands());
    lemma_read_from_concat(blank(), sections + seq!["[autoexec]"@], config.commands());
    lemma_read_lines_from(config.written());
    assert(Seq::<Seq<char>>::empty() + config.commands() =~= config.commands());
    assert(settings.keys().take(n) =~= settings.keys());
    assert(leading_sections(settings, n) =~= config.sections()) by {
        assert forall|name: Seq<char>| settings.has(name) implies #[trigger] config.sections()[name]
            == settings.values()[position_of(settings.keys(), name)].text_map() by {
            lemma_position_of(settings.keys(), name);
        }
    }
}

/// What is read back as it is written stays so under a merge: where two
/// lists of commands and two maps of settings are stable, so are the
/// commands of both in a row and the one map laid over the other.
pub proof fn lemma_merge_is_stable(
    base_commands: Seq<Seq<char>>,
    base_settings: Map<Seq<char>, Map<Seq<char>, Seq<char>>>,
    over_commands: Seq<Seq<char>>,
    over_settings: Map<Seq<char>, Map<Seq<char>, Seq<char>>>,
)
    requires
        stable(base_commands, base_settings),
        stable(over_commands, over_settings),
    ensures
        stable(base_commands + over_commands, overlay(base_settings, over_settings)),
{
    let commands = base_commands + over_commands;
    let merged = overlay(base_settings, over_settings);
    assert forall|i: int| 0 <= i < commands.len() implies stable_command(
        #[trigger] commands[i],
    ) by {
        if i < base_commands.len() {
            assert(commands[i] == base_commands[i]);
        } else {
            assert(commands[i] == over_commands[i - base_commands.len()]);
        }
    }
    assert forall|name: Seq<char>| #[trigger] merged.contains_key(name) implies {
        &&& name.len() > 0
        &&& name != "autoexec"@
        &&& exists|key: Seq<char>| merged[name].contains_key(key)
        &&& forall|key: Seq<char>| #[trigger]
            merged[name].contains_key(key) ==> stable_setting(key, merged[name][key])
    } by {
        let below = settings_of(base_settings, name);
        let above = settings_of(over_settings, name);
        assert(merged[name] == below.union_prefer_right(above));
        if over_settings.contains_key(name) {
            let key = choose|key: Seq<char>| over_settings[name].contains_key(key);
            assert(merged[name].contains_key(key));
        } else {
            assert(base_settings.contains_key(name));
            let key = choose|key: Seq<char>| base_settings[name].contains_key(key);
            assert(merged[name].contains_key(key));
        }
        assert forall|key: Seq<char>| #[trigger] merged[name].contains_key(key) implies stable_setting(
            key,
            merged[name][key],
        ) by {
            if above.contains_key(key) {
                assert(over_settings.contains_key(name));
                assert(over_settings[name].contains_key(key));
            } else {
                assert(below.contains_key(key));
                assert(base_settings.contains_key(name));
                assert(base_settings[name].contains_key(key));
            }
        }
    }
}

/// The merge of what was read from two texts is read back, commands and
/// settings, from the lines that are written of it.
pub proof fn lemma_merged_round_trip(
    base: Seq<Seq<char>>,
    over: Seq<Seq<char>>,
    merged: DosboxConfig,
)
    requires
        merged.wf(),
        merged.commands() == read_lines(base).autoexec + read_lines(over).autoexec,
        merged.sections() == overlay(read_lines(base).settings, read_lines(over).settings),
    ensures
        read_lines(merged.written()).autoexec == merged.commands(),
        read_lines(merged.written()).settings == merged.sections(),
{
    lemma_read_is_stable(base);
    lemma_read_is_stable(over);
    lemma_merge_is_stable(
        read_lines(base).autoexec,
        read_lines(base).settings,
        read_lines(over).autoexec,
        read_lines(over).settings,
    );
    lemma_written_is_read_back(merged);
}

/// Reading, writing and reading again loses nothing: a configuration that
/// holds what was read from some lines is read back, commands and
/// settings, from the lines that are written of it.
pub proof fn lemma_round_trip(lines: Seq<Seq<char>>, config: DosboxConfig)
    requires
        config.wf(),
        config.commands() == read_lines(lines).autoexec,
        config.sections() == read_lines(lines).settings,
    ensures
        read_lines(config.written()).autoexec == read_lines(lines).autoexec,
        read_lines(config.written()).settings == read_lines(lines).settings,
{
    lemma_read_is_stable(lines);
    lemma_written_is_read_back(config);
}

} // verus!
