//! Extractors: the file extensions that one takes, and the command that
//! unpacks an archive.

use vstd::prelude::*;

use crate::command::Command;
use crate::mappings::{Mappings, Table};
use crate::path::{extension, extension_of};
use crate::text::{contains_text, views};

verus! {

/// The extension that an extractor is asked for: that of the path's file
/// name, or the empty text where it has none.
pub open spec fn wanted_extension(path: Seq<char>) -> Seq<char> {
    match extension(path) {
        Some(e) => e,
        None => Seq::empty(),
    }
}

/// The mappings that an archive is unpacked with.
pub open spec fn extract_table(archive: Seq<char>, target: Seq<char>) -> Table {
    Table::empty().with("archive"@, archive).with("target"@, target)
}

/// A set of file extensions and a command.
#[derive(Debug)]
pub struct Extractor {
    extensions: Vec<String>,
    command: Command,
}

impl Extractor {
    /// The extensions that the extractor takes.
    pub closed spec fn extensions(self) -> Seq<Seq<char>> {
        views(self.extensions@)
    }

    /// The command that unpacks.
    pub closed spec fn command(self) -> Command {
        self.command
    }

    /// The command is well-formed.
    pub open spec fn wf(self) -> bool {
        self.command().wf()
    }

    /// An extractor of `extensions` and `command`.
    pub fn new(extensions: Vec<String>, command: Command) -> (extractor: Extractor)
        ensures
            extractor.extensions() == views(extensions@),
            extractor.command() == command,
    {
        Extractor { extensions, command }
    }

    /// The extensions that the extractor takes.
    pub fn extension_list(&self) -> (list: &Vec<String>)
        ensures
            views(list@) == self.extensions(),
    {
        &self.extensions
    }

    /// The command that unpacks.
    pub fn command_ref(&self) -> (command: &Command)
        ensures
            *command == self.command(),
    {
        &self.command
    }

    /// A copy of the extractor.
    pub fn duplicate(&self) -> (copy: Extractor)
        ensures
            copy.extensions() == self.extensions(),
            copy.command().cmd == self.command().cmd,
            copy.command().args@ == self.command().args@,
            copy.command().wd == self.command().wd,
            copy.command().evars.wf() == self.command().evars.wf(),
            copy.command().evars.keys() == self.command().evars.keys(),
            copy.command().evars.values() == self.command().evars.values(),
    {
        Extractor {
            extensions: crate::text::clone_strings(&self.extensions),
            command: self.command.duplicate(),
        }
    }

    /// Whether the extractor takes `path`.
    pub open spec fn claims(self, path: Seq<char>) -> bool {
        self.extensions().contains(wanted_extension(path))
    }

    /// Whether the extension of `path` is one of the extractor's.
    pub fn can_extract(&self, path: &str) -> (claims: bool)
        ensures
            claims == self.claims(path@),
    {
        match extension_of(path) {
            Some(found) => contains_text(&self.extensions, found.as_str()),
            None => {
                let none = String::new();
                contains_text(&self.extensions, none.as_str())
            },
        }
    }

    /// Substitutes the mappings into the extractor's command.
    pub fn apply_mappings(&mut self, mappings: &Mappings)
        requires
            old(self).wf(),
        ensures
            final(self).wf(),
            final(self).extensions() == old(self).extensions(),
            old(self).command().resolved(mappings.table(), final(self).command()),
    {
        self.command.apply_mappings(mappings);
    }

    /// The command that unpacks `archive` into `target`: the extractor's
    /// command with `{archive}` and `{target}` substituted.
    pub fn command_for(&self, archive: &str, target: &str) -> (command: Command)
        requires
            self.wf(),
        ensures
            command.wf(),
            self.command().resolved(extract_table(archive@, target@), command),
    {
        let mut mappings = Mappings::new();
        mappings.insert("archive", archive);
        mappings.insert("target", target);
        let mut command = self.command.duplicate();
        command.apply_mappings(&mappings);
        command
    }
}

} // verus!
