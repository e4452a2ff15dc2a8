//! The configuration of a run: where it comes from and how the sources are
//! merged into one.

use vstd::prelude::*;

use crate::dict::Dict;
use crate::extractor::Extractor;
use crate::mappings::Mappings;
use crate::paths::{bound, Paths};
use crate::profile::Profile;

pub mod commandline;
pub mod compiled;
pub mod configuration;
pub mod environment;
pub mod error;
pub mod persisted;
pub mod source;

pub use self::configuration::Configuration;
pub use self::environment::Environment;

verus! {

/// The index of the last of `extractors` that takes `path`, or -1.
pub open spec fn last_claiming(extractors: Seq<Extractor>, path: Seq<char>) -> int
    decreases extractors.len(),
{
    if extractors.len() == 0 {
        -1
    } else if extractors.last().claims(path) {
        extractors.len() - 1
    } else {
        last_claiming(extractors.drop_last(), path)
    }
}

/// What `last_claiming` finds takes the path, and nothing after it does.
pub proof fn lemma_last_claiming(extractors: Seq<Extractor>, path: Seq<char>)
    ensures
        -1 <= last_claiming(extractors, path) < extractors.len(),
        last_claiming(extractors, path) >= 0 ==> extractors[last_claiming(
            extractors,
            path,
        )].claims(path),
        forall|i: int|
            last_claiming(extractors, path) < i < extractors.len() ==> !(
            #[trigger] extractors[i]).claims(path),
    decreases extractors.len(),
{
    if extractors.len() > 0 && !extractors.last().claims(path) {
        let rest = extractors.drop_last();
        lemma_last_claiming(rest, path);
        assert forall|i: int| last_claiming(extractors, path) < i < extractors.len() implies !(
        #[trigger] extractors[i]).claims(path) by {
            if i < extractors.len() - 1 {
                assert(extractors[i] == rest[i]);
            }
        }
    }
}

/// The index of the last of `extractors` that takes `path`.
pub fn find_last_claiming(extractors: &Dict<Extractor>, path: &str) -> (at: Option<usize>)
    ensures
        match at {
            Some(i) => i == last_claiming(extractors.values(), path@),
            None => last_claiming(extractors.values(), path@) == -1,
        },
{
    let n = extractors.len();
    let mut found: Option<usize> = None;
    let mut i: usize = 0;
    assert(extractors.values().take(0) =~= Seq::<Extractor>::empty());
    while i < n
        invariant
            i <= n,
            n == extractors.values().len(),
            n == extractors.keys().len(),
            match found {
                Some(at) => at == last_claiming(extractors.values().take(i as int), path@),
                None => last_claiming(extractors.values().take(i as int), path@) == -1,
            },
        decreases n - i,
    {
        proof {
            let next = extractors.values().take(i + 1);
            assert(next.drop_last() =~= extractors.values().take(i as int));
            assert(next.last() == extractors.values()[i as int]);
        }
        if extractors.value(i).can_extract(path) {
            found = Some(i);
        }
        i += 1;
    }
    assert(extractors.values().take(n as int) =~= extractors.values());
    found
}

/// A catalog as a file holds it: profiles, paths and extractors.
#[derive(Debug)]
pub struct Config {
    pub profiles: Dict<Profile>,
    pub paths: Paths,
    pub extractors: Dict<Extractor>,
}

impl Config {
    /// No extractor stands twice, and the command of each is well-formed.
    pub open spec fn wf(self) -> bool {
        &&& self.extractors.wf()
        &&& forall|i: int|
            0 <= i < self.extractors.values().len() ==> (#[trigger] self.extractors.values()[i]).wf()
    }

    /// Resolves the paths, which adds them to the mappings, and substitutes
    /// the mappings as they then stand into the command of each extractor.
    pub fn apply_mappings(&mut self, mappings: &mut Mappings)
        requires
            old(self).wf(),
            old(mappings).wf(),
        ensures
            final(self).wf(),
            final(mappings).wf(),
            final(self).profiles == old(self).profiles,
            ({
                let (tmp, first) = bound(old(mappings).table(), "tmp"@, old(self).paths.tmp@);
                let (target, second) = bound(first, "target"@, old(self).paths.target@);
                let (stdout, third) = bound(second, "stdout"@, old(self).paths.stdout@);
                let (stderr, fourth) = bound(third, "stderr"@, old(self).paths.stderr@);
                &&& final(self).paths.tmp@ == tmp
                &&& final(self).paths.target@ == target
                &&& final(self).paths.stdout@ == stdout
                &&& final(self).paths.stderr@ == stderr
                &&& final(mappings).table() == fourth
            }),
            final(self).extractors.keys() == old(self).extractors.keys(),
            final(self).extractors.values().len() == old(self).extractors.values().len(),
            forall|i: int|
                0 <= i < old(self).extractors.values().len() ==> {
                    let before = #[trigger] old(self).extractors.values()[i];
                    let after = final(self).extractors.values()[i];
                    &&& after.extensions() == before.extensions()
                    &&& before.command().resolved(final(mappings).table(), after.command())
                },
    {
        self.paths.apply_mappings(mappings);
        let ghost table = mappings.table();
        let ghost paths = self.paths;
        let n = self.extractors.len();
        let mut i: usize = 0;
        while i < n
            invariant
                i <= n,
                mappings.wf(),
                mappings.table() == table,
                self.paths == paths,
                n == self.extractors.values().len(),
                n == self.extractors.keys().len(),
                n == old(self).extractors.values().len(),
                self.extractors.wf(),
                self.extractors.keys() == old(self).extractors.keys(),
                self.profiles == old(self).profiles,
                forall|j: int|
                    0 <= j < n ==> (#[trigger] self.extractors.values()[j]).wf(),
                forall|j: int|
                    i <= j < n ==> #[trigger] self.extractors.values()[j] == old(
                        self,
                    ).extractors.values()[j],
                forall|j: int|
                    0 <= j < i ==> {
                        let before = #[trigger] old(self).extractors.values()[j];
                        let after = self.extractors.values()[j];
                        &&& after.extensions() == before.extensions()
                        &&& before.command().resolved(mappings.table(), after.command())
                    },
            decreases n - i,
        {
            let ghost before = self.extractors.values()[i as int];
            let mut extractor = self.extractors.value(i).duplicate();
            assert(extractor.command().evars.texts() =~= before.command().evars.texts());
            extractor.apply_mappings(mappings);
            self.extractors.set_value(i, extractor);
            i += 1;
        }
    }

    /// The last extractor, in the order of the catalog, that takes
    /// `archive`.
    pub fn get_extractor(&self, archive: &str) -> (extractor: Option<&Extractor>)
        ensures
            match extractor {
                Some(e) => last_claiming(self.extractors.values(), archive@) >= 0 && *e
                    == self.extractors.values()[last_claiming(self.extractors.values(), archive@)],
                None => last_claiming(self.extractors.values(), archive@) == -1,
            },
    {
        proof {
            lemma_last_claiming(self.extractors.values(), archive@);
            self.extractors.lemma_len();
        }
        match find_last_claiming(&self.extractors, archive) {
            Some(at) => Some(self.extractors.value(at)),
            None => None,
        }
    }
}

} // verus!
