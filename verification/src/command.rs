//! A command line with its environment and working directory.

use vstd::prelude::*;

use crate::dict::Dict;
use crate::mappings::{substitute_each, Mappings, Table};
use crate::text::{clone_strings, views};

verus! {

/// A program, its arguments, the environment variables set for it, and the
/// directory it runs in.
#[derive(Debug)]
pub struct Command {
    pub cmd: String,
    pub args: Vec<String>,
    pub evars: Dict<String>,
    pub wd: String,
}

impl Command {
    /// No environment variable stands twice.
    pub open spec fn wf(self) -> bool {
        self.evars.wf()
    }

    /// Whether `result` is this command with the mappings of `table`
    /// substituted into its working directory, into each argument and into
    /// the value of each environment variable.
    pub open spec fn resolved(self, table: Table, result: Command) -> bool {
        &&& result.cmd == self.cmd
        &&& result.wd@ == table.resolve(self.wd@)
        &&& views(result.args@) == substitute_each(table.keys, table.values, views(self.args@))
        &&& result.evars.keys() == self.evars.keys()
        &&& result.evars.texts() == substitute_each(table.keys, table.values, self.evars.texts())
    }

    /// The environment of a command that names none.
    pub fn evars_default() -> (evars: Dict<String>)
        ensures
            evars.wf(),
            evars.keys() == Seq::<Seq<char>>::empty(),
            evars.values() == Seq::<String>::empty(),
    {
        Dict::new()
    }

    /// The working directory of a command that names none.
    pub fn wd_default() -> (wd: String)
        ensures
            wd@ == "{target}"@,
    {
        "{target}".to_owned()
    }

    /// A copy of the command.
    pub fn duplicate(&self) -> (copy: Command)
        ensures
            copy.cmd == self.cmd,
            copy.args@ == self.args@,
            copy.evars.wf() == self.evars.wf(),
            copy.evars.keys() == self.evars.keys(),
            copy.evars.values() == self.evars.values(),
            copy.wd == self.wd,
    {
        Command {
            cmd: self.cmd.clone(),
            args: clone_strings(&self.args),
            evars: self.evars.duplicate(),
            wd: self.wd.clone(),
        }
    }

    /// Substitutes the mappings into the working directory, into each
    /// argument and into the value of each environment variable.
    pub fn apply_mappings(&mut self, mappings: &Mappings)
        requires
            old(self).wf(),
        ensures
            final(self).wf(),
            old(self).resolved(mappings.table(), *final(self)),
    {
        mappings.replace(&mut self.wd);
        mappings.replace_vec(&mut self.args);
        mappings.replace_map(&mut self.evars);
    }
}

} // verus!
