//! Paths relative to a directory.

use vstd::prelude::*;

use crate::path::{strip_prefix_of, without_prefix};

verus! {

/// A path that does not lie under the prefix.
#[derive(Debug)]
pub struct StripPrefixError {
    /// The path.
    pub path: String,
    /// The prefix that it does not start with.
    pub prefix: String,
}

impl StripPrefixError {
    /// The error in words.
    pub fn message(&self) -> (text: String)
        ensures
            text@ == "prefix not found: "@ + self.prefix@ + " in "@ + self.path@,
    {
        let mut out: Vec<char> = Vec::new();
        crate::text::push_str(&mut out, "prefix not found: ");
        crate::text::push_str(&mut out, self.prefix.as_str());
        crate::text::push_str(&mut out, " in ");
        crate::text::push_str(&mut out, self.path.as_str());
        crate::text::from_chars(&out)
    }
}

/// Whether the first `count` of `paths` have lost the prefix and the others
/// are as they were.
pub open spec fn stripped_to(before: Seq<String>, after: Seq<String>, prefix: Seq<char>, count: int)
    -> bool {
    &&& after.len() == before.len()
    &&& forall|i: int| 0 <= i < count ==> without_prefix(before[i]@, prefix) == Some((#[trigger] after[i])@)
    &&& forall|i: int| count <= i < before.len() ==> #[trigger] after[i] == before[i]
}

/// Takes the components of `prefix` from the front of each of `paths`. The
/// first path that does not start with them is the error; the paths before
/// it have lost the prefix then, and it and the paths after it have not.
pub fn strip_prefix(paths: &mut Vec<String>, prefix: &str) -> (result: Result<(), StripPrefixError>)
    ensures
        match result {
            Ok(_) => stripped_to(old(paths)@, final(paths)@, prefix@, old(paths).len() as int),
            Err(error) => exists|at: int|
                0 <= at < old(paths).len() && #[trigger] stripped_to(
                    old(paths)@,
                    final(paths)@,
                    prefix@,
                    at,
                ) && without_prefix(old(paths)@[at]@, prefix@) is None && error.path
                    == old(paths)@[at] && error.prefix@ == prefix@,
        },
{
    let n = paths.len();
    let mut i: usize = 0;
    while i < n
        invariant
            i <= n,
            n == old(paths).len(),
            stripped_to(old(paths)@, paths@, prefix@, i as int),
        decreases n - i,
    {
        match strip_prefix_of(paths[i].as_str(), prefix) {
            Some(rest) => {
                paths.set(i, rest);
            },
            None => {
                return Err(StripPrefixError { path: paths[i].clone(), prefix: prefix.to_owned() });
            },
        }
        i += 1;
    }
    Ok(())
}

} // verus!
