//! References to environment variables in a text, `$NAME` or `${NAME}`, and
//! their replacement by the variables' values.

use vstd::prelude::*;

use crate::dict::Dict;
use crate::template::{lemma_word_run, word_run};
use crate::text::{char_is_word, replace, replace_chars, string_of, to_chars};

verus! {

/// 1 where the reference that `text` starts with has a `{` before its name.
pub open spec fn brace_len(text: Seq<char>) -> int {
    if text.len() >= 2 && text[1] == '{' && word_run(text.skip(2)) > 0 {
        1
    } else {
        0
    }
}

/// The length of the name of the reference that `text` starts with, or 0
/// where it starts with none. A reference is `$`, then `{` or not, then a
/// name of one or more word characters, then `}` or not.
pub open spec fn name_len(text: Seq<char>) -> int {
    if text.len() >= 2 && text[0] == '$' {
        word_run(text.skip(1 + brace_len(text)))
    } else {
        0
    }
}

/// The length of the reference that `text` starts with, or 0.
pub open spec fn reference_len(text: Seq<char>) -> int {
    let end = 1 + brace_len(text) + name_len(text);
    if name_len(text) <= 0 {
        0
    } else if end < text.len() && text[end] == '}' {
        end + 1
    } else {
        end
    }
}

/// A reference: all of it, and the name in it.
pub struct Reference {
    pub whole: Seq<char>,
    pub name: Seq<char>,
}

/// The reference that `text` starts with.
pub open spec fn reference_at(text: Seq<char>) -> Reference {
    Reference {
        whole: text.take(reference_len(text)),
        name: text.subrange(1 + brace_len(text), 1 + brace_len(text) + name_len(text)),
    }
}

/// The references in `text`, from the left, none overlapping another.
pub open spec fn references(text: Seq<char>) -> Seq<Reference>
    decreases text.len(),
{
    if text.len() == 0 {
        Seq::empty()
    } else {
        let n = reference_len(text);
        if 0 < n <= text.len() {
            seq![reference_at(text)] + references(text.skip(n))
        } else {
            references(text.skip(1))
        }
    }
}

/// `text` after, for each of `found` in order, every occurrence of the
/// whole reference was replaced by the value of the variable it names. The
/// reference of a variable that `variables` lacks stays, or is replaced by
/// nothing where `blank` is set.
pub open spec fn resolve(
    variables: Map<Seq<char>, Seq<char>>,
    found: Seq<Reference>,
    text: Seq<char>,
    blank: bool,
) -> Seq<char>
    decreases found.len(),
{
    if found.len() == 0 {
        text
    } else {
        let next = if variables.contains_key(found[0].name) {
            replace(text, found[0].whole, variables[found[0].name])
        } else if blank {
            replace(text, found[0].whole, Seq::empty())
        } else {
            text
        };
        resolve(variables, found.skip(1), next, blank)
    }
}

/// `text` with the references found in it resolved once.
pub open spec fn expanded(variables: Map<Seq<char>, Seq<char>>, text: Seq<char>, blank: bool) -> Seq<
    char,
> {
    resolve(variables, references(text), text, blank)
}

/// `text` expanded again and again until it no longer changes, but not
/// more than `rounds` times.
pub open spec fn settled(
    variables: Map<Seq<char>, Seq<char>>,
    text: Seq<char>,
    blank: bool,
    rounds: nat,
) -> Seq<char>
    decreases rounds,
{
    if rounds == 0 {
        text
    } else if expanded(variables, text, blank) == text {
        text
    } else {
        settled(variables, expanded(variables, text, blank), blank, (rounds - 1) as nat)
    }
}

/// Whether `text` no longer changes when it is expanded.
pub open spec fn is_fixed(variables: Map<Seq<char>, Seq<char>>, text: Seq<char>, blank: bool) -> bool {
    expanded(variables, text, blank) == text
}

/// A text that no longer changes is what it settles to; and what a text
/// settles to no longer changes, unless all the rounds were used on it.
pub proof fn lemma_settled(
    variables: Map<Seq<char>, Seq<char>>,
    text: Seq<char>,
    blank: bool,
    rounds: nat,
)
    ensures
        is_fixed(variables, text, blank) ==> settled(variables, text, blank, rounds) == text,
        is_fixed(variables, settled(variables, text, blank, rounds), blank) || rounds_used(
            variables,
            text,
            blank,
            rounds,
        ) == rounds,
    decreases rounds,
{
    if rounds > 0 && !is_fixed(variables, text, blank) {
        lemma_settled(variables, expanded(variables, text, blank), blank, (rounds - 1) as nat);
    }
}

/// The number of rounds in which `text` changed, of `rounds` at most.
pub open spec fn rounds_used(
    variables: Map<Seq<char>, Seq<char>>,
    text: Seq<char>,
    blank: bool,
    rounds: nat,
) -> nat
    decreases rounds,
{
    if rounds == 0 || expanded(variables, text, blank) == text {
        0
    } else {
        1 + rounds_used(variables, expanded(variables, text, blank), blank, (rounds - 1) as nat)
    }
}

/// The most rounds of expansion that a text is given.
pub const ROUNDS: usize = 64;

/// A reference is not longer than the text, and its name lies within it.
pub proof fn lemma_reference_len(text: Seq<char>)
    ensures
        0 <= brace_len(text) <= 1,
        0 <= name_len(text),
        0 <= reference_len(text) <= text.len(),
        reference_len(text) > 0 ==> name_len(text) > 0 && 1 + brace_len(text) + name_len(text)
            <= reference_len(text),
{
    if text.len() >= 2 {
        lemma_word_run(text.skip(1));
        lemma_word_run(text.skip(2));
    }
}

/// The views of the pairs that stand for references.
pub open spec fn reference_views(found: Seq<(String, String)>) -> Seq<Reference> {
    found.map_values(|r: (String, String)| Reference { whole: r.0@, name: r.1@ })
}

/// The number of word characters from `text[at]` on.
fn word_run_at(text: &Vec<char>, at: usize) -> (run: usize)
    requires
        at <= text.len(),
    ensures
        run == word_run(text@.skip(at as int)),
        at + run <= text.len(),
{
    let mut j: usize = at;
    while j < text.len() && char_is_word(text[j])
        invariant
            at <= j <= text.len(),
            word_run(text@.skip(at as int)) == (j - at) + word_run(text@.skip(j as int)),
        decreases text.len() - j,
    {
        assert(text@.skip(j as int).skip(1) =~= text@.skip(j + 1));
        j += 1;
    }
    j - at
}

/// The reference at `text[at..]`: its length and where its name starts and
/// ends, or nothing.
fn reference_bounds(text: &Vec<char>, at: usize) -> (bounds: Option<(usize, usize, usize)>)
    requires
        at < text.len(),
    ensures
        match bounds {
            Some((len, from, to)) => {
                &&& len == reference_len(text@.skip(at as int))
                &&& 0 < len <= text.len() - at
                &&& at < from <= to <= at + len
                &&& text@.subrange(from as int, to as int) == reference_at(
                    text@.skip(at as int),
                ).name
            },
            None => reference_len(text@.skip(at as int)) == 0,
        },
{
    let ghost rest = text@.skip(at as int);
    proof {
        lemma_reference_len(rest);
    }
    if text.len() - at < 2 || text[at] != '$' {
        return None;
    }
    assert(rest.skip(1) =~= text@.skip(at + 1));
    assert(rest.skip(2) =~= text@.skip(at + 2));
    let mut from: usize = at + 1;
    let mut run: usize = 0;
    if text[at + 1] == '{' {
        run = word_run_at(text, at + 2);
        if run > 0 {
            from = at + 2;
        }
    }
    if run == 0 {
        run = word_run_at(text, at + 1);
    }
    if run == 0 {
        return None;
    }
    let to = from + run;
    let len = if to < text.len() && text[to] == '}' {
        to + 1 - at
    } else {
        to - at
    };
    assert(rest.subrange(from - at, to - at) =~= text@.subrange(from as int, to as int));
    Some((len, from, to))
}

/// The references in `text`.
pub fn find_references(text: &Vec<char>) -> (found: Vec<(String, String)>)
    ensures
        reference_views(found@) == references(text@),
{
    let mut found: Vec<(String, String)> = Vec::new();
    let mut i: usize = 0;
    assert(text@.skip(0) =~= text@);
    assert(reference_views(found@) + references(text@) =~= references(text@));
    while i < text.len()
        invariant
            i <= text.len(),
            reference_views(found@) + references(text@.skip(i as int)) == references(text@),
        decreases text.len() - i,
    {
        let ghost rest = text@.skip(i as int);
        let ghost before = reference_views(found@);
        match reference_bounds(text, i) {
            Some((len, from, to)) => {
                let whole = string_of(text, i, i + len);
                let name = string_of(text, from, to);
                found.push((whole, name));
                proof {
                    assert(rest.take(len as int) =~= text@.subrange(i as int, i + len));
                    assert(rest.skip(len as int) =~= text@.skip(i + len));
                    assert(reference_views(found@) =~= before.push(reference_at(rest)));
                    assert(before + (seq![reference_at(rest)] + references(text@.skip(i + len)))
                        =~= before.push(reference_at(rest)) + references(text@.skip(i + len)));
                }
                i += len;
            },
            None => {
                assert(rest.skip(1) =~= text@.skip(i + 1));
                i += 1;
            },
        }
    }
    assert(text@.skip(text.len() as int) =~= Seq::<char>::empty());
    assert(reference_views(found@) + Seq::<Reference>::empty() =~= reference_views(found@));
    found
}

/// `text` with the references found in it resolved once from `variables`.
pub fn expand_once(variables: &Dict<String>, text: &Vec<char>, blank: bool) -> (out: Vec<char>)
    ensures
        out@ == expanded(variables.text_map(), text@, blank),
{
    let found = find_references(text);
    let ghost all = reference_views(found@);
    let mut current: Vec<char> = Vec::new();
    crate::text::push_all(&mut current, text);
    let mut i: usize = 0;
    assert(all.skip(0) =~= all);
    while i < found.len()
        invariant
            i <= found.len(),
            all == reference_views(found@),
            all == references(text@),
            resolve(variables.text_map(), all.skip(i as int), current@, blank) == expanded(
                variables.text_map(),
                text@,
                blank,
            ),
        decreases found.len() - i,
    {
        proof {
            assert(all.skip(i as int)[0] == all[i as int]);
            assert(all.skip(i as int).skip(1) =~= all.skip(i + 1));
            crate::dict::lemma_position_of(variables.keys(), found@[i as int].1@);
            variables.lemma_len();
        }
        let whole = to_chars(found[i].0.as_str());
        match variables.get(found[i].1.as_str()) {
            Some(value) => {
                let with = to_chars(value.as_str());
                current = replace_chars(&current, &whole, &with);
            },
            None => {
                if blank {
                    let nothing: Vec<char> = Vec::new();
                    assert(nothing@ =~= Seq::<char>::empty());
                    current = replace_chars(&current, &whole, &nothing);
                }
            },
        }
        i += 1;
    }
    current
}

/// Whether `text` no longer changes when it is expanded. What
/// `expand_fully` returns is such a text unless `ROUNDS` rounds were not
/// enough for it.
pub fn is_expanded(variables: &Dict<String>, text: &str, blank: bool) -> (fixed: bool)
    ensures
        fixed == is_fixed(variables.text_map(), text@, blank),
{
    let chars = to_chars(text);
    let next = expand_once(variables, &chars, blank);
    crate::text::chars_equal(&next, &chars)
}

/// `text` expanded until it no longer changes, but not more than `ROUNDS`
/// times.
pub fn expand_fully(variables: &Dict<String>, text: &str, blank: bool) -> (out: String)
    ensures
        out@ == settled(variables.text_map(), text@, blank, ROUNDS as nat),
{
    let mut current = to_chars(text);
    let mut left: usize = ROUNDS;
    while left > 0
        invariant
            settled(variables.text_map(), current@, blank, left as nat) == settled(
                variables.text_map(),
                text@,
                blank,
                ROUNDS as nat,
            ),
        decreases left,
    {
        let next = expand_once(variables, &current, blank);
        if crate::text::chars_equal(&next, &current) {
            return crate::text::from_chars(&current);
        }
        current = next;
        left -= 1;
    }
    crate::text::from_chars(&current)
}

} // verus!
