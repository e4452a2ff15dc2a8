//! The sectioned configuration text of DOSBox: `[section]` headers,
//! `key=value` settings, `#` comments, and the command lines of `[autoexec]`.

use vstd::prelude::*;

use crate::dict::{lemma_position_of, Dict};
use crate::text::{
    find_char, find_last_char, from_chars, index_of, last_index_of, lemma_index_of_bounds,
    lemma_last_index_of_bounds, replace, replace_chars, slice_views, str_equal, string_of,
    to_chars, trim, trim_chars, trim_end, trim_start, trimmed_end, trimmed_start, views,
};

verus! {

/// A line that starts with `#`.
pub open spec fn is_comment(line: Seq<char>) -> bool {
    line.len() > 0 && line[0] == '#'
}

/// The name of the section that `line` opens: what stands between its first
/// `[` and its last `]`, where that is at least one character.
pub open spec fn section_name(line: Seq<char>) -> Option<Seq<char>> {
    let open = index_of(line, '[');
    let close = last_index_of(line, ']');
    if open + 2 <= close {
        Some(line.subrange(open + 1, close))
    } else {
        None
    }
}

/// `line` as a command: each backslash becomes a slash.
pub open spec fn command_of(line: Seq<char>) -> Seq<char> {
    replace(line, seq!['\\'], seq!['/'])
}

/// The key and the value of the setting `line`. The `=` that parts them is
/// the first one after the line's first character, and something must
/// follow it. The key is what stands before, without trailing whitespace
/// but at least one character; the value is what follows, without leading
/// whitespace but at least one character.
pub open spec fn setting_of(line: Seq<char>) -> Option<(Seq<char>, Seq<char>)> {
    if line.len() < 2 {
        None
    } else {
        let at = 1 + index_of(line.skip(1), '=');
        if at + 1 >= line.len() {
            None
        } else {
            let head = line.subrange(0, at);
            let tail = line.subrange(at + 1, line.len() as int);
            let key = if trim_end(head).len() == 0 {
                line.subrange(0, 1)
            } else {
                trim_end(head)
            };
            let value = if trim_start(tail).len() == 0 {
                line.subrange(line.len() - 1, line.len() as int)
            } else {
                trim_start(tail)
            };
            Some((key, value))
        }
    }
}

/// What has been read of a configuration text.
pub struct Content {
    /// The section that the next line belongs to.
    pub section: Option<Seq<char>>,
    /// The commands of `[autoexec]`, in order.
    pub autoexec: Seq<Seq<char>>,
    /// The settings of the other sections.
    pub settings: Map<Seq<char>, Map<Seq<char>, Seq<char>>>,
}

/// The settings of `section`, none where it has none.
pub open spec fn settings_of(
    settings: Map<Seq<char>, Map<Seq<char>, Seq<char>>>,
    section: Seq<char>,
) -> Map<Seq<char>, Seq<char>> {
    if settings.contains_key(section) {
        settings[section]
    } else {
        Map::empty()
    }
}

/// `state` after one more line. Blank lines and comments are passed over; a
/// section header opens its section; before the first header every line is
/// passed over; in `autoexec` every line is a command; elsewhere a setting
/// is stored over an earlier one of its key, and any other line is passed
/// over.
pub open spec fn read_line(state: Content, raw: Seq<char>) -> Content {
    let line = trim(raw);
    if line.len() == 0 || is_comment(line) {
        state
    } else if section_name(line) is Some {
        Content { section: section_name(line), autoexec: state.autoexec, settings: state.settings }
    } else if state.section is None {
        state
    } else if state.section->0 == "autoexec"@ {
        Content {
            section: state.section,
            autoexec: state.autoexec.push(command_of(line)),
            settings: state.settings,
        }
    } else {
        match setting_of(line) {
            Some((key, value)) => Content {
                section: state.section,
                autoexec: state.autoexec,
                settings: state.settings.insert(
                    state.section->0,
                    settings_of(state.settings, state.section->0).insert(key, value),
                ),
            },
            None => state,
        }
    }
}

/// What a text of `lines` holds.
pub open spec fn read_lines(lines: Seq<Seq<char>>) -> Content
    decreases lines.len(),
{
    if lines.len() == 0 {
        Content { section: None, autoexec: Seq::empty(), settings: Map::empty() }
    } else {
        read_line(read_lines(lines.drop_last()), lines.last())
    }
}

/// `over` laid over `base`: a setting of `over` replaces the one of `base`
/// with its section and key; everything else of both stays.
pub open spec fn overlay(
    base: Map<Seq<char>, Map<Seq<char>, Seq<char>>>,
    over: Map<Seq<char>, Map<Seq<char>, Seq<char>>>,
) -> Map<Seq<char>, Map<Seq<char>, Seq<char>>> {
    Map::new(
        |section: Seq<char>| base.contains_key(section) || over.contains_key(section),
        |section: Seq<char>|
            settings_of(base, section).union_prefer_right(settings_of(over, section)),
    )
}

/// A setting of the overlay is that of the merge; a setting that only the
/// base has stays; and a section that the overlay does not touch stays as
/// it is.
pub proof fn lemma_overlay_precedence(
    base: Map<Seq<char>, Map<Seq<char>, Seq<char>>>,
    over: Map<Seq<char>, Map<Seq<char>, Seq<char>>>,
    section: Seq<char>,
    key: Seq<char>,
)
    ensures
        over.contains_key(section) && over[section].contains_key(key) ==> overlay(
            base,
            over,
        ).contains_key(section) && overlay(base, over)[section].contains_key(key) && overlay(
            base,
            over,
        )[section][key] == over[section][key],
        base.contains_key(section) && base[section].contains_key(key) && !(over.contains_key(
            section,
        ) && over[section].contains_key(key)) ==> overlay(base, over).contains_key(section)
            && overlay(base, over)[section].contains_key(key) && overlay(
            base,
            over,
        )[section][key] == base[section][key],
        base.contains_key(section) && !over.contains_key(section) ==> overlay(base, over)[section]
            == base[section],
        overlay(base, over).contains_key(section) <==> base.contains_key(section)
            || over.contains_key(section),
{
    if base.contains_key(section) && !over.contains_key(section) {
        assert(overlay(base, over)[section] =~= base[section]);
    }
}

/// The lines `key=value` of one section, in the order of its keys.
pub open spec fn setting_lines(keys: Seq<Seq<char>>, values: Seq<Seq<char>>) -> Seq<Seq<char>> {
    Seq::new(keys.len(), |i: int| keys[i] + seq!['='] + values[i])
}

/// The header `[name]`.
pub open spec fn header(name: Seq<char>) -> Seq<char> {
    seq!['['] + name + seq![']']
}

/// The lines of the first `count` sections: for each its header and its
/// settings.
pub open spec fn section_lines(settings: Dict<Dict<String>>, count: int) -> Seq<Seq<char>>
    decreases count,
{
    if count <= 0 || count > settings.keys().len() || count > settings.values().len() {
        Seq::empty()
    } else {
        section_lines(settings, count - 1) + seq![header(settings.keys()[count - 1])]
            + setting_lines(
            settings.values()[count - 1].keys(),
            settings.values()[count - 1].texts(),
        )
    }
}

/// The view of a setting.
pub open spec fn setting_view(setting: Option<(String, String)>) -> Option<(Seq<char>, Seq<char>)> {
    match setting {
        Some((key, value)) => Some((key@, value@)),
        None => None,
    }
}

/// The name of the section that `line` opens.
fn section_from(line: &Vec<char>) -> (name: Option<String>)
    ensures
        match name {
            Some(n) => section_name(line@) == Some(n@),
            None => section_name(line@) is None,
        },
{
    let open = find_char(line, 0, '[');
    proof {
        assert(line@.skip(0) =~= line@);
        lemma_index_of_bounds(line@, '[');
        lemma_last_index_of_bounds(line@, ']');
    }
    match find_last_char(line, ']') {
        Some(close) => {
            if close >= 2 && open <= close - 2 {
                Some(string_of(line, open + 1, close))
            } else {
                None
            }
        },
        None => None,
    }
}

/// A parsed configuration: the commands of `[autoexec]` and the settings of
/// every other section.
#[derive(Debug)]
pub struct DosboxConfig {
    pub autoexec: Vec<String>,
    pub settings: Dict<Dict<String>>,
}

impl DosboxConfig {
    /// No section stands twice, and in no section a key.
    pub open spec fn wf(self) -> bool {
        &&& self.settings.wf()
        &&& forall|i: int|
            0 <= i < self.settings.values().len() ==> (#[trigger] self.settings.values()[i]).wf()
    }

    /// The commands, in order.
    pub open spec fn commands(self) -> Seq<Seq<char>> {
        views(self.autoexec@)
    }

    /// The settings: for each section the map from its keys to their values.
    pub open spec fn sections(self) -> Map<Seq<char>, Map<Seq<char>, Seq<char>>> {
        self.settings.as_map().map_values(|d: Dict<String>| d.text_map())
    }

    /// The lines that `lines` returns: every section with its settings, in
    /// the order of the sections and of their keys, then `[autoexec]` and
    /// the commands.
    pub open spec fn written(self) -> Seq<Seq<char>> {
        section_lines(self.settings, self.settings.keys().len() as int) + seq!["[autoexec]"@]
            + self.commands()
    }

    /// The configuration without commands and settings: it has no command
    /// and no section, and what is written of it is the header of
    /// `autoexec` alone.
    pub fn new() -> (config: DosboxConfig)
        ensures
            config.wf(),
            config.autoexec@ == Seq::<String>::empty(),
            config.settings.keys() == Seq::<Seq<char>>::empty(),
            config.settings.values() == Seq::<Dict<String>>::empty(),
            config.commands() == Seq::<Seq<char>>::empty(),
            config.sections() == Map::<Seq<char>, Map<Seq<char>, Seq<char>>>::empty(),
            config.written() == seq!["[autoexec]"@],
    {
        let config = DosboxConfig { autoexec: Vec::new(), settings: Dict::new() };
        assert(config.commands() =~= Seq::<Seq<char>>::empty());
        assert(config.sections() =~= Map::<Seq<char>, Map<Seq<char>, Seq<char>>>::empty());
        assert(section_lines(config.settings, 0) =~= Seq::<Seq<char>>::empty());
        assert(config.written() =~= seq!["[autoexec]"@]);
        config
    }

    /// `line` as a command.
    pub fn command_from(line: &str) -> (command: String)
        ensures
            command@ == command_of(line@),
    {
        let chars = to_chars(line);
        let mut backslash: Vec<char> = Vec::new();
        backslash.push('\\');
        let mut slash: Vec<char> = Vec::new();
        slash.push('/');
        assert(backslash@ =~= seq!['\\']);
        assert(slash@ =~= seq!['/']);
        from_chars(&replace_chars(&chars, &backslash, &slash))
    }

    /// The key and the value of the setting `line`, if it is one.
    pub fn setting_from(line: &str) -> (setting: Option<(String, String)>)
        ensures
            setting_view(setting) == setting_of(line@),
    {
        let chars = to_chars(line);
        let n = chars.len();
        if n < 2 {
            return None;
        }
        let at = find_char(&chars, 1, '=');
        if at >= n - 1 {
            return None;
        }
        let mut key_end = trimmed_end(&chars, 0, at);
        if key_end == 0 {
            key_end = 1;
        }
        let mut value_start = trimmed_start(&chars, at + 1, n);
        if value_start == n {
            value_start = n - 1;
        }
        let key = string_of(&chars, 0, key_end);
        let value = string_of(&chars, value_start, n);
        Some((key, value))
    }

    /// Reads the lines of a configuration text.
    pub fn parse(lines: &[&str]) -> (config: DosboxConfig)
        ensures
            config.wf(),
            config.commands() == read_lines(slice_views(lines@)).autoexec,
            config.sections() == read_lines(slice_views(lines@)).settings,
    {
        let ghost all = slice_views(lines@);
        let mut section: Option<String> = None;
        let mut autoexec: Vec<String> = Vec::new();
        let mut settings: Dict<Dict<String>> = Dict::new();
        let mut i: usize = 0;
        proof {
            assert(all.take(0) =~= Seq::<Seq<char>>::empty());
            assert(views(autoexec@) =~= Seq::<Seq<char>>::empty());
            assert(settings.as_map().map_values(|d: Dict<String>| d.text_map())
                =~= Map::<Seq<char>, Map<Seq<char>, Seq<char>>>::empty());
        }
        while i < lines.len()
            invariant
                i <= lines.len(),
                all == slice_views(lines@),
                settings.wf(),
                forall|j: int|
                    0 <= j < settings.values().len() ==> (#[trigger] settings.values()[j]).wf(),
                match section {
                    Some(name) => read_lines(all.take(i as int)).section == Some(name@),
                    None => read_lines(all.take(i as int)).section is None,
                },
                views(autoexec@) == read_lines(all.take(i as int)).autoexec,
                settings.as_map().map_values(|d: Dict<String>| d.text_map()) == read_lines(
                    all.take(i as int),
                ).settings,
            decreases lines.len() - i,
        {
            proof {
                assert(all.take(i + 1).drop_last() =~= all.take(i as int));
                assert(all.take(i + 1).last() == lines@[i as int]@);
            }
            let line = trim_chars(&to_chars(lines[i]));
            if line.len() > 0 && line[0] != '#' {
                match section_from(&line) {
                    Some(name) => {
                        section = Some(name);
                    },
                    None => {
                        match &section {
                            None => {},
                            Some(current) => {
                                let text = from_chars(&line);
                                if str_equal(current.as_str(), "autoexec") {
                                    let ghost seen = views(autoexec@);
                                    let command = DosboxConfig::command_from(text.as_str());
                                    autoexec.push(command);
                                    assert(views(autoexec@) =~= seen.push(command@));
                                } else {
                                    match DosboxConfig::setting_from(text.as_str()) {
                                        Some((key, value)) => {
                                            DosboxConfig::store(
                                                &mut settings,
                                                current.as_str(),
                                                key,
                                                value,
                                            );
                                        },
                                        None => {},
                                    }
                                }
                            },
                        }
                    },
                }
            }
            i += 1;
        }
        assert(all.take(lines.len() as int) =~= all);
        DosboxConfig { autoexec, settings }
    }

    /// Stores `value` under `key` in the settings of `section`.
    fn store(settings: &mut Dict<Dict<String>>, section: &str, key: String, value: String)
        requires
            old(settings).wf(),
            forall|j: int|
                0 <= j < old(settings).values().len() ==> (#[trigger] old(settings).values()[j]).wf(),
        ensures
            final(settings).wf(),
            forall|j: int|
                0 <= j < final(settings).values().len() ==> (
                #[trigger] final(settings).values()[j]).wf(),
            final(settings).as_map().map_values(|d: Dict<String>| d.text_map()) == ({
                let before = old(settings).as_map().map_values(|d: Dict<String>| d.text_map());
                before.insert(section@, settings_of(before, section@).insert(key@, value@))
            }),
    {
        let ghost before = settings.as_map().map_values(|d: Dict<String>| d.text_map());
        let ghost k = key@;
        let ghost v = value@;
        proof {
            lemma_position_of(settings.keys(), section@);
            settings.lemma_wf();
        }
        match settings.position(section) {
            Some(at) => {
                let mut inner = settings.value(at).duplicate();
                let ghost had = inner;
                inner.insert(key, value);
                settings.set_value(at, inner);
                proof {
                    assert(old(settings).lookup(section@) == Some(
                        old(settings).values()[at as int],
                    ));
                    assert(before[section@] == had.text_map());
                    assert(inner.text_map() =~= had.text_map().insert(k, v));
                    assert(settings.as_map().map_values(|d: Dict<String>| d.text_map())
                        =~= before.insert(section@, had.text_map().insert(k, v)));
                }
            },
            None => {
                let mut inner: Dict<String> = Dict::new();
                inner.insert(key, value);
                settings.insert(section.to_owned(), inner);
                proof {
                    assert(!before.contains_key(section@));
                    assert(inner.text_map() =~= Map::<Seq<char>, Seq<char>>::empty().insert(
                        k,
                        v,
                    ));
                    assert(settings.as_map().map_values(|d: Dict<String>| d.text_map())
                        =~= before.insert(
                        section@,
                        Map::<Seq<char>, Seq<char>>::empty().insert(k, v),
                    ));
                }
            },
        }
    }

    /// This configuration with `config_b` laid over it: the commands of
    /// `config_b` follow those that are here, and each setting of
    /// `config_b` replaces the one with its section and key.
    pub fn merge(&self, config_b: &DosboxConfig) -> (merged: DosboxConfig)
        requires
            self.wf(),
            config_b.wf(),
        ensures
            merged.wf(),
            merged.commands() == self.commands() + config_b.commands(),
            merged.sections() == overlay(self.sections(), config_b.sections()),
    {
        let mut autoexec: Vec<String> = Vec::new();
        let mut i: usize = 0;
        while i < self.autoexec.len()
            invariant
                i <= self.autoexec.len(),
                autoexec@ == self.autoexec@.take(i as int),
            decreases self.autoexec.len() - i,
        {
            autoexec.push(self.autoexec[i].clone());
            assert(autoexec@ =~= self.autoexec@.take(i + 1));
            i += 1;
        }
        assert(self.autoexec@.take(self.autoexec.len() as int) =~= self.autoexec@);
        let mut j: usize = 0;
        while j < config_b.autoexec.len()
            invariant
                j <= config_b.autoexec.len(),
                autoexec@ == self.autoexec@ + config_b.autoexec@.take(j as int),
            decreases config_b.autoexec.len() - j,
        {
            autoexec.push(config_b.autoexec[j].clone());
            assert(autoexec@ =~= self.autoexec@ + config_b.autoexec@.take(j + 1));
            j += 1;
        }
        assert(config_b.autoexec@.take(config_b.autoexec.len() as int) =~= config_b.autoexec@);
        assert(views(autoexec@) =~= views(self.autoexec@) + views(config_b.autoexec@));

        let mut settings: Dict<Dict<String>> = Dict::new();
        assert(settings.as_map().map_values(|d: Dict<String>| d.text_map())
            =~= Map::<Seq<char>, Map<Seq<char>, Seq<char>>>::empty());
        DosboxConfig::lay_over(&mut settings, &self.settings);
        DosboxConfig::lay_over(&mut settings, &config_b.settings);
        let merged = DosboxConfig { autoexec, settings };
        proof {
            let none = Map::<Seq<char>, Map<Seq<char>, Seq<char>>>::empty();
            assert(overlay(none, self.sections()) =~~= self.sections());
            assert(merged.sections() =~~= overlay(self.sections(), config_b.sections()));
        }
        merged
    }

    /// Lays a copy of each section of `over` over `settings`.
    fn lay_over(settings: &mut Dict<Dict<String>>, over: &Dict<Dict<String>>)
        requires
            old(settings).wf(),
            forall|j: int|
                0 <= j < old(settings).values().len() ==> (#[trigger] old(settings).values()[j]).wf(),
            over.wf(),
            forall|j: int| 0 <= j < over.values().len() ==> (#[trigger] over.values()[j]).wf(),
        ensures
            final(settings).wf(),
            forall|j: int|
                0 <= j < final(settings).values().len() ==> (
                #[trigger] final(settings).values()[j]).wf(),
            final(settings).as_map().map_values(|d: Dict<String>| d.text_map()) == overlay(
                old(settings).as_map().map_values(|d: Dict<String>| d.text_map()),
                over.as_map().map_values(|d: Dict<String>| d.text_map()),
            ),
    {
        let ghost base = settings.as_map().map_values(|d: Dict<String>| d.text_map());
        let ghost top = over.as_map().map_values(|d: Dict<String>| d.text_map());
        let n = over.len();
        let mut i: usize = 0;
        proof {
            over.lemma_wf();
            assert(over.keys().take(0) =~= Seq::<Seq<char>>::empty());
            assert(base =~~= overlay(base, top.restrict(over.keys().take(0).to_set())));
        }
        while i < n
            invariant
                i <= n,
                n == over.keys().len(),
                n == over.values().len(),
                over.wf(),
                over.keys().no_duplicates(),
                forall|j: int| 0 <= j < over.values().len() ==> (#[trigger] over.values()[j]).wf(),
                settings.wf(),
                forall|j: int|
                    0 <= j < settings.values().len() ==> (#[trigger] settings.values()[j]).wf(),
                base == old(settings).as_map().map_values(|d: Dict<String>| d.text_map()),
                top == over.as_map().map_values(|d: Dict<String>| d.text_map()),
                settings.as_map().map_values(|d: Dict<String>| d.text_map()) == overlay(
                    base,
                    top.restrict(over.keys().take(i as int).to_set()),
                ),
            decreases n - i,
        {
            let name = over.key(i);
            let ghost now = settings.as_map().map_values(|d: Dict<String>| d.text_map());
            let ghost seen = over.keys().take(i as int);
            let ghost next = over.keys().take(i + 1);
            proof {
                lemma_position_of(settings.keys(), name@);
                settings.lemma_wf();
                crate::dict::lemma_position_of_at(over.keys(), i as int);
                assert(over.keys().contains(name@));
                assert(over.lookup(name@) == Some(over.values()[i as int]));
                assert(next =~= seen.push(name@));
                assert(!seen.contains(name@)) by {
                    if seen.contains(name@) {
                        let j = choose|j: int| 0 <= j < seen.len() && seen[j] == name@;
                        assert(over.keys()[j] == over.keys()[i as int]);
                    }
                }
                assert(next.to_set() =~= seen.to_set().insert(name@)) by {
                    assert forall|k: Seq<char>| next.contains(k) == (seen.contains(k) || k
                        == name@) by {
                        if seen.contains(k) {
                            let j = choose|j: int| 0 <= j < seen.len() && seen[j] == k;
                            assert(next[j] == k);
                        }
                        if next.contains(k) {
                            let j = choose|j: int| 0 <= j < next.len() && next[j] == k;
                            if j < i {
                                assert(seen[j] == k);
                            }
                        }
                        if k == name@ {
                            assert(next[i as int] == k);
                        }
                    }
                }
            }
            let mut inner = match settings.get(name.as_str()) {
                Some(found) => found.duplicate(),
                None => Dict::new(),
            };
            let ghost had = inner;
            inner.absorb(over.value(i));
            settings.insert(name.clone(), inner);
            proof {
                let added = over.values()[i as int];
                assert(had.text_map() =~= settings_of(now, name@));
                assert(settings_of(now, name@) =~= settings_of(base, name@));
                assert(inner.text_map() =~= had.text_map().union_prefer_right(added.text_map()));
                assert(top[name@] == added.text_map());
                assert(settings.as_map().map_values(|d: Dict<String>| d.text_map())
                    =~= now.insert(name@, inner.text_map()));
                assert(now.insert(name@, inner.text_map()) =~= overlay(
                    base,
                    top.restrict(next.to_set()),
                ));
            }
            i += 1;
        }
        proof {
            assert(over.keys().take(n as int) =~= over.keys());
            assert(top.restrict(over.keys().to_set()) =~= top);
        }
    }

    /// The lines of the configuration text: every section with its
    /// settings, then `[autoexec]` and the commands.
    pub fn lines(&self) -> (out: Vec<String>)
        ensures
            views(out@) == self.written(),
    {
        let mut out: Vec<String> = Vec::new();
        let n = self.settings.len();
        let mut i: usize = 0;
        assert(views(out@) =~= section_lines(self.settings, 0));
        while i < n
            invariant
                i <= n,
                n == self.settings.keys().len(),
                n == self.settings.values().len(),
                views(out@) == section_lines(self.settings, i as int),
            decreases n - i,
        {
            let ghost done = views(out@);
            let section = self.settings.value(i);
            let mut head: Vec<char> = Vec::new();
            head.push('[');
            crate::text::push_str(&mut head, self.settings.key(i).as_str());
            head.push(']');
            let head = from_chars(&head);
            assert(head@ =~= header(self.settings.keys()[i as int]));
            out.push(head);
            let m = section.len();
            let mut j: usize = 0;
            assert(views(out@) =~= done + seq![head@] + setting_lines(
                section.keys(),
                section.texts(),
            ).take(0));
            while j < m
                invariant
                    j <= m,
                    m == section.keys().len(),
                    m == section.values().len(),
                    views(out@) == done + seq![head@] + setting_lines(
                        section.keys(),
                        section.texts(),
                    ).take(j as int),
                decreases m - j,
            {
                let ghost sofar = views(out@);
                let mut line: Vec<char> = Vec::new();
                crate::text::push_str(&mut line, section.key(j).as_str());
                line.push('=');
                crate::text::push_str(&mut line, section.value(j).as_str());
                let line = from_chars(&line);
                assert(line@ =~= section.keys()[j as int] + seq!['='] + section.texts()[j as int]);
                out.push(line);
                assert(views(out@) =~= sofar.push(line@));
                assert(setting_lines(section.keys(), section.texts()).take(j + 1)
                    =~= setting_lines(section.keys(), section.texts()).take(j as int).push(
                    line@,
                ));
                j += 1;
            }
            assert(setting_lines(section.keys(), section.texts()).take(m as int)
                =~= setting_lines(section.keys(), section.texts()));
            i += 1;
        }
        let ghost sections = views(out@);
        out.push("[autoexec]".to_owned());
        assert(views(out@) =~= sections + seq!["[autoexec]"@]);
        let mut k: usize = 0;
        while k < self.autoexec.len()
            invariant
                k <= self.autoexec.len(),
                views(out@) == sections + seq!["[autoexec]"@] + self.commands().take(k as int),
            decreases self.autoexec.len() - k,
        {
            let ghost sofar = views(out@);
            out.push(self.autoexec[k].clone());
            assert(views(out@) =~= sofar.push(self.autoexec@[k as int]@));
            assert(self.commands().take(k + 1) =~= self.commands().take(k as int).push(
                self.autoexec@[k as int]@,
            ));
            k += 1;
        }
        assert(self.commands().take(self.autoexec.len() as int) =~= self.commands());
        out
    }
}

} // verus!
