//! The directories and files of a run, each written with placeholders.

use vstd::prelude::*;

use crate::mappings::{Mappings, Table};

verus! {

/// The temporary directory, the target directory, and the files that take
/// the output of a command.
#[derive(Debug)]
pub struct Paths {
    pub tmp: String,
    pub target: String,
    pub stdout: String,
    pub stderr: String,
}

/// What `Paths::apply_mappings` makes of a path: its text with the table
/// substituted into it, and the table with that text under `key`.
pub open spec fn bound(table: Table, key: Seq<char>, path: Seq<char>) -> (Seq<char>, Table) {
    let text = table.resolve(crate::mappings::unquote(path));
    (text, table.with(key, text))
}

impl Paths {
    /// The paths of a configuration that names none.
    pub fn new() -> (paths: Paths)
        ensures
            paths.tmp@ == "/tmp/rxr"@,
            paths.target@ == "{tmp}/{archive.name}"@,
            paths.stdout@ == "{target}/stdout"@,
            paths.stderr@ == "{target}/stderr"@,
    {
        Paths {
            tmp: Paths::tmp_default(),
            target: Paths::target_default(),
            stdout: Paths::stdout_default(),
            stderr: Paths::stderr_default(),
        }
    }

    /// The temporary directory of a configuration that names none.
    pub fn tmp_default() -> (path: String)
        ensures
            path@ == "/tmp/rxr"@,
    {
        "/tmp/rxr".to_owned()
    }

    /// The target directory of a configuration that names none.
    pub fn target_default() -> (path: String)
        ensures
            path@ == "{tmp}/{archive.name}"@,
    {
        "{tmp}/{archive.name}".to_owned()
    }

    /// The file for a command's output, where none is named.
    pub fn stdout_default() -> (path: String)
        ensures
            path@ == "{target}/stdout"@,
    {
        "{target}/stdout".to_owned()
    }

    /// The file for a command's error output, where none is named.
    pub fn stderr_default() -> (path: String)
        ensures
            path@ == "{target}/stderr"@,
    {
        "{target}/stderr".to_owned()
    }

    /// Resolves the four paths in turn, each against the mappings as they
    /// stand, and inserts each under its name (`tmp`, `target`, `stdout`,
    /// `stderr`) before the next is resolved.
    pub fn apply_mappings(&mut self, mappings: &mut Mappings)
        requires
            old(mappings).wf(),
        ensures
            final(mappings).wf(),
            ({
                let (tmp, first) = bound(old(mappings).table(), "tmp"@, old(self).tmp@);
                let (target, second) = bound(first, "target"@, old(self).target@);
                let (stdout, third) = bound(second, "stdout"@, old(self).stdout@);
                let (stderr, fourth) = bound(third, "stderr"@, old(self).stderr@);
                &&& final(self).tmp@ == tmp
                &&& final(self).target@ == target
                &&& final(self).stdout@ == stdout
                &&& final(self).stderr@ == stderr
                &&& final(mappings).table() == fourth
            }),
    {
        let tmp = mappings.replace_all(self.tmp.as_str());
        mappings.insert("tmp", tmp.as_str());
        self.tmp = tmp;

        let target = mappings.replace_all(self.target.as_str());
        mappings.insert("target", target.as_str());
        self.target = target;

        let stdout = mappings.replace_all(self.stdout.as_str());
        mappings.insert("stdout", stdout.as_str());
        self.stdout = stdout;

        let stderr = mappings.replace_all(self.stderr.as_str());
        mappings.insert("stderr", stderr.as_str());
        self.stderr = stderr;
    }
}

} // verus!
