//! Regular expressions, held as their source text and matched without regard
//! to case.

use vstd::prelude::*;

verus! {

/// Whether `regex::RegexBuilder`, set to ignore case, builds a regex from
/// `pattern`.
pub uninterp spec fn compiles(pattern: Seq<char>) -> bool;

/// Whether `regex::Regex::is_match` finds the regex built from `pattern`,
/// set to ignore case, somewhere in `text`.
pub uninterp spec fn matches(pattern: Seq<char>, text: Seq<char>) -> bool;

/// Whether `pattern` is a regex that matches somewhere in `text`.
pub open spec fn accepts(pattern: Seq<char>, text: Seq<char>) -> bool {
    compiles(pattern) && matches(pattern, text)
}

/// Builds `pattern` with `regex::RegexBuilder::build`, set to ignore case,
/// and hands back the crate's words for why it failed, or nothing where it
/// did not. Claimed: it fails on the same patterns whenever it is asked.
#[verifier::external_body]
fn build_error(pattern: &str) -> (error: Option<String>)
    ensures
        error is None <==> compiles(pattern@),
{
    match regex::RegexBuilder::new(pattern).case_insensitive(true).build() {
        Ok(_) => None,
        Err(error) => Some(error.to_string()),
    }
}

/// Asks `regex::Regex::is_match` whether the regex built from `pattern`, set
/// to ignore case, matches somewhere in `text`; nothing where the pattern
/// does not build. Claimed: the answer depends on the two texts alone.
#[verifier::external_body]
fn search(pattern: &str, text: &str) -> (found: Option<bool>)
    ensures
        found is Some <==> compiles(pattern@),
        found matches Some(hit) ==> hit == matches(pattern@, text@),
{
    match regex::RegexBuilder::new(pattern).case_insensitive(true).build() {
        Ok(regex) => Some(regex.is_match(text)),
        Err(_) => None,
    }
}

/// A pattern that does not build.
#[derive(Debug)]
pub struct PatternError {
    /// The pattern.
    pub pattern: String,
    /// Why it does not build.
    pub reason: String,
}

impl PatternError {
    /// The error in words.
    pub fn message(&self) -> (text: String)
        ensures
            text@ == "Failed deserialising regex: '"@ + self.reason@ + "'"@,
    {
        let mut out: Vec<char> = Vec::new();
        crate::text::push_str(&mut out, "Failed deserialising regex: '");
        crate::text::push_str(&mut out, self.reason.as_str());
        crate::text::push_str(&mut out, "'");
        crate::text::from_chars(&out)
    }
}

/// The source of a regex that builds.
#[derive(Debug)]
pub struct Pattern {
    source: String,
}

impl Pattern {
    /// The pattern's text.
    pub closed spec fn source(self) -> Seq<char> {
        self.source@
    }

    /// The pattern builds.
    pub open spec fn wf(self) -> bool {
        compiles(self.source())
    }

    /// Takes `source` as a pattern if it builds, and says why if it does
    /// not.
    pub fn new(source: &str) -> (result: Result<Pattern, PatternError>)
        ensures
            match result {
                Ok(pattern) => compiles(source@) && pattern.source() == source@ && pattern.wf(),
                Err(error) => !compiles(source@) && error.pattern@ == source@,
            },
    {
        match build_error(source) {
            None => Ok(Pattern { source: source.to_owned() }),
            Some(reason) => Err(PatternError { pattern: source.to_owned(), reason }),
        }
    }

    /// The pattern's text.
    pub fn as_str(&self) -> (source: &str)
        ensures
            source@ == self.source(),
    {
        self.source.as_str()
    }

    /// A copy of the pattern.
    pub fn duplicate(&self) -> (copy: Pattern)
        ensures
            copy.source() == self.source(),
    {
        Pattern { source: self.source.clone() }
    }

    /// Whether the pattern matches somewhere in `text`.
    pub fn is_match(&self, text: &str) -> (hit: bool)
        ensures
            hit == accepts(self.source(), text@),
    {
        match search(self.source.as_str(), text) {
            Some(hit) => hit,
            None => false,
        }
    }
}

/// The texts of a list of patterns.
pub open spec fn sources(patterns: Seq<Pattern>) -> Seq<Seq<char>> {
    patterns.map_values(|p: Pattern| p.source())
}

/// Whether one of `patterns` matches somewhere in `text`.
pub open spec fn any_accepts(patterns: Seq<Seq<char>>, text: Seq<char>) -> bool {
    exists|i: int| 0 <= i < patterns.len() && accepts(#[trigger] patterns[i], text)
}

/// Takes each of `sources` as a pattern; the first that does not build is
/// the error.
pub fn compile_all(sources: &Vec<String>) -> (result: Result<Vec<Pattern>, PatternError>)
    ensures
        match result {
            Ok(patterns) => crate::pattern::sources(patterns@) == crate::text::views(sources@)
                && forall|i: int| 0 <= i < sources.len() ==> compiles(#[trigger] sources@[i]@),
            Err(error) => exists|i: int|
                0 <= i < sources.len() && !compiles(#[trigger] sources@[i]@) && error.pattern@
                    == sources@[i]@ && forall|j: int| 0 <= j < i ==> compiles(#[trigger] sources@[j]@),
        },
{
    let mut out: Vec<Pattern> = Vec::new();
    let mut i: usize = 0;
    while i < sources.len()
        invariant
            i <= sources.len(),
            out.len() == i,
            forall|j: int| 0 <= j < i ==> compiles(#[trigger] sources@[j]@),
            forall|j: int| 0 <= j < i ==> (#[trigger] out@[j]).source() == sources@[j]@,
        decreases sources.len() - i,
    {
        match Pattern::new(sources[i].as_str()) {
            Ok(pattern) => {
                out.push(pattern);
            },
            Err(error) => {
                return Err(error);
            },
        }
        i += 1;
    }
    assert(crate::pattern::sources(out@) =~= crate::text::views(sources@));
    Ok(out)
}

/// Whether one of `patterns` matches somewhere in `text`.
pub fn any_match(patterns: &Vec<Pattern>, text: &str) -> (hit: bool)
    ensures
        hit == any_accepts(sources(patterns@), text@),
{
    let mut i: usize = 0;
    while i < patterns.len()
        invariant
            i <= patterns.len(),
            forall|j: int| 0 <= j < i ==> !accepts(#[trigger] sources(patterns@)[j], text@),
        decreases patterns.len() - i,
    {
        if patterns[i].is_match(text) {
            assert(accepts(sources(patterns@)[i as int], text@));
            return true;
        }
        i += 1;
    }
    false
}

} // verus!
