//! An archive file.

use vstd::prelude::*;

use crate::path::{extension, extension_of, file_name, file_name_of};
use crate::text::views;

verus! {

/// The path of an archive.
#[derive(Debug)]
pub struct Archive {
    path: String,
}

impl Archive {
    /// The archive's path.
    pub closed spec fn path(self) -> Seq<char> {
        self.path@
    }

    /// The archive at `path`.
    pub fn from(path: &str) -> (archive: Archive)
        ensures
            archive.path() == path@,
    {
        Archive { path: path.to_owned() }
    }

    /// The archive's path.
    pub fn path_str(&self) -> (path: &str)
        ensures
            path@ == self.path(),
    {
        self.path.as_str()
    }

    /// The archive's file name.
    pub fn name(&self) -> (name: String)
        requires
            file_name(self.path()) is Some,
        ensures
            Some(name@) == file_name(self.path()),
    {
        match file_name_of(self.path.as_str()) {
            Some(name) => name,
            None => String::new(),
        }
    }

    /// The extension of the archive's file name.
    pub fn extension(&self) -> (found: String)
        requires
            extension(self.path()) is Some,
        ensures
            Some(found@) == extension(self.path()),
    {
        match extension_of(self.path.as_str()) {
            Some(found) => found,
            None => String::new(),
        }
    }

    /// The arguments that `unzip` unpacks the archive into `target` with.
    pub fn unzip_arguments(&self, target: &str) -> (arguments: Vec<String>)
        ensures
            views(arguments@) == seq![self.path(), "-d"@, target@],
    {
        let mut arguments: Vec<String> = Vec::new();
        arguments.push(self.path.clone());
        arguments.push("-d".to_owned());
        arguments.push(target.to_owned());
        assert(views(arguments@) =~= seq![self.path(), "-d"@, target@]);
        arguments
    }
}

} // verus!
