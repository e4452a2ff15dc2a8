//! What the environment says of the configuration.

use vstd::prelude::*;

use crate::dict::Dict;
use crate::expansion::{
    expand_fully, expand_once, expanded, is_expanded, is_fixed, settled, ROUNDS,
};
use crate::text::{from_chars, to_chars};

verus! {

/// The view of an optional reference to a string.
pub open spec fn found_text(found: Option<&String>) -> Option<Seq<char>> {
    match found {
        Some(s) => Some(s@),
        None => None,
    }
}

/// The first of two that is there.
pub open spec fn first_of<T>(first: Option<T>, second: Option<T>) -> Option<T> {
    if first is Some {
        first
    } else {
        second
    }
}

/// What a found string is a reference to.
pub open spec fn found_string(found: Option<&String>) -> Option<String> {
    match found {
        Some(s) => Some(*s),
        None => None,
    }
}

/// The environment's variables. What is read of them is each value with
/// the references in it resolved against the variables as they were handed
/// over, until it no longer changes.
#[derive(Debug)]
pub struct Environment {
    raw: Dict<String>,
    resolved: Dict<String>,
}

impl Environment {
    /// The variables as they were handed over.
    pub closed spec fn raw(self) -> Map<Seq<char>, Seq<char>> {
        self.raw.text_map()
    }

    /// The string that holds the value of the variable `key`, if there is
    /// one.
    pub closed spec fn entry(self, key: Seq<char>) -> Option<String> {
        self.resolved.lookup(key)
    }

    /// The value of the variable `key`, if there is one.
    pub open spec fn value(self, key: Seq<char>) -> Option<Seq<char>> {
        match self.entry(key) {
            Some(s) => Some(s@),
            None => None,
        }
    }

    /// The environment of `variables`.
    pub fn new(variables: Dict<String>) -> (environment: Environment)
        requires
            variables.wf(),
        ensures
            environment.raw() == variables.text_map(),
            forall|key: Seq<char>|
                #[trigger] environment.value(key) == (if variables.text_map().contains_key(key) {
                    Some(
                        settled(
                            variables.text_map(),
                            variables.text_map()[key],
                            false,
                            ROUNDS as nat,
                        ),
                    )
                } else {
                    None
                }),
    {
        let mut resolved: Dict<String> = Dict::new();
        let n = variables.len();
        let mut i: usize = 0;
        proof {
            variables.lemma_wf();
            assert(variables.keys().take(0) =~= Seq::<Seq<char>>::empty());
        }
        while i < n
            invariant
                i <= n,
                n == variables.keys().len(),
                n == variables.values().len(),
                variables.wf(),
                variables.keys().no_duplicates(),
                resolved.wf(),
                forall|key: Seq<char>|
                    resolved.text_map().contains_key(key) <==> variables.keys().take(
                        i as int,
                    ).contains(key),
                forall|key: Seq<char>| #[trigger]
                    resolved.text_map().contains_key(key) ==> resolved.text_map()[key] == settled(
                        variables.text_map(),
                        variables.text_map()[key],
                        false,
                        ROUNDS as nat,
                    ),
            decreases n - i,
        {
            let key = variables.key(i).clone();
            let value = expand_fully(&variables, variables.value(i).as_str(), false);
            proof {
                let seen = variables.keys().take(i as int);
                let next = variables.keys().take(i + 1);
                assert(next =~= seen.push(key@));
                crate::dict::lemma_position_of_at(variables.keys(), i as int);
                assert(variables.keys().contains(key@));
                assert(variables.text_map()[key@] == variables.values()[i as int]@);
                assert forall|k: Seq<char>| next.contains(k) == (seen.contains(k) || k
                    == key@) by {
                    if seen.contains(k) {
                        let j = choose|j: int| 0 <= j < seen.len() && seen[j] == k;
                        assert(next[j] == k);
                    }
                    if next.contains(k) {
                        let j = choose|j: int| 0 <= j < next.len() && next[j] == k;
                        if j < i {
                            assert(seen[j] == k);
                        }
                    }
                    if k == key@ {
                        assert(next[i as int] == k);
                    }
                }
            }
            let ghost before = resolved.text_map();
            resolved.insert(key, value);
            assert(resolved.text_map() =~= before.insert(key@, value@));
            i += 1;
        }
        let environment = Environment { raw: variables, resolved };
        proof {
            assert(variables.keys().take(n as int) =~= variables.keys());
            assert forall|key: Seq<char>|
                #[trigger] environment.value(key) == (if variables.text_map().contains_key(key) {
                    Some(
                        settled(
                            variables.text_map(),
                            variables.text_map()[key],
                            false,
                            ROUNDS as nat,
                        ),
                    )
                } else {
                    None
                }) by {
                assert(resolved.text_map().contains_key(key) == resolved.has(key));
                if resolved.has(key) {
                    assert(resolved.text_map()[key] == resolved.lookup(key)->0@);
                }
            }
        }
        environment
    }

    /// The value of the variable `key`.
    pub fn variable(&self, key: &str) -> (value: Option<&String>)
        ensures
            found_string(value) == self.entry(key@),
            found_text(value) == self.value(key@),
    {
        self.resolved.get(key)
    }

    /// `target` with the references in it resolved against the variables
    /// as they were handed over, again and again until the text no longer
    /// changes, but not more than `ROUNDS` times. A reference to a variable
    /// that is not there stays.
    pub fn expand(&self, target: &str) -> (text: String)
        ensures
            text@ == settled(self.raw(), target@, false, ROUNDS as nat),
    {
        expand_fully(&self.raw, target, false)
    }

    /// `target` with the references that are found in it resolved once.
    pub fn expand_once(&self, target: &str) -> (text: String)
        ensures
            text@ == expanded(self.raw(), target@, false),
    {
        from_chars(&expand_once(&self.raw, &to_chars(target), false))
    }

    /// Whether `text` no longer changes when it is expanded: it is so for
    /// what `expand` returns unless `ROUNDS` rounds were not enough.
    pub fn is_expanded(&self, text: &str) -> (fixed: bool)
        ensures
            fixed == is_fixed(self.raw(), text@, false),
    {
        is_expanded(&self.raw, text, false)
    }

    /// The configuration file: `RXR_CONFIG`.
    pub fn get_config(&self) -> (value: Option<&String>)
        ensures
            found_string(value) == self.entry("RXR_CONFIG"@),
            found_text(value) == self.value("RXR_CONFIG"@),
    {
        self.variable("RXR_CONFIG")
    }

    /// The data directory: `RXR_DATA_DIR`, else `XDG_DATA_HOME`.
    pub fn get_data_dir(&self) -> (value: Option<&String>)
        ensures
            found_string(value) == first_of(
                self.entry("RXR_DATA_DIR"@),
                self.entry("XDG_DATA_HOME"@),
            ),
            found_text(value) == first_of(
                self.value("RXR_DATA_DIR"@),
                self.value("XDG_DATA_HOME"@),
            ),
    {
        match self.variable("RXR_DATA_DIR") {
            Some(found) => Some(found),
            None => self.variable("XDG_DATA_HOME"),
        }
    }

    /// The temporary directory: `RXR_TEMP_DIR`.
    pub fn get_temp_dir(&self) -> (value: Option<&String>)
        ensures
            found_string(value) == self.entry("RXR_TEMP_DIR"@),
            found_text(value) == self.value("RXR_TEMP_DIR"@),
    {
        self.variable("RXR_TEMP_DIR")
    }

    /// The target directory: `RXR_TARGET_DIR`.
    pub fn get_target_dir(&self) -> (value: Option<&String>)
        ensures
            found_string(value) == self.entry("RXR_TARGET_DIR"@),
            found_text(value) == self.value("RXR_TARGET_DIR"@),
    {
        self.variable("RXR_TARGET_DIR")
    }

    /// The extractor to use: `RXR_EXTRACTOR`.
    pub fn get_extractor(&self) -> (value: Option<&String>)
        ensures
            found_string(value) == self.entry("RXR_EXTRACTOR"@),
            found_text(value) == self.value("RXR_EXTRACTOR"@),
    {
        self.variable("RXR_EXTRACTOR")
    }

    /// The profile to use: `RXR_PROFILE`.
    pub fn get_profile(&self) -> (value: Option<&String>)
        ensures
            found_string(value) == self.entry("RXR_PROFILE"@),
            found_text(value) == self.value("RXR_PROFILE"@),
    {
        self.variable("RXR_PROFILE")
    }
}

} // verus!
