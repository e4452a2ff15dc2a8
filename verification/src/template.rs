//! Templates: a text with placeholders `{name}`, filled from a map, and
//! expressions `{{...}}`, evaluated once for each item of a list.

use vstd::prelude::*;

use crate::dict::Dict;
use crate::expression::{can_evaluate, evaluable};
use crate::text::{
    char_is_word, from_chars, is_word_char, replace, replace_chars, string_of, to_chars, views,
};

verus! {

/// The number of word characters that `text` starts with.
pub open spec fn word_run(text: Seq<char>) -> int
    decreases text.len(),
{
    if text.len() > 0 && is_word_char(text[0]) {
        1 + word_run(text.skip(1))
    } else {
        0
    }
}

/// The number of characters of `text` before its first `}}`, or -1 where a
/// line feed or the end of the text comes first.
pub open spec fn closing_at(text: Seq<char>) -> int
    decreases text.len(),
{
    if text.len() < 2 {
        -1
    } else if text[0] == '}' && text[1] == '}' {
        0
    } else if text[0] == '\n' {
        -1
    } else {
        let rest = closing_at(text.skip(1));
        if rest < 0 {
            -1
        } else {
            rest + 1
        }
    }
}

/// The length of the token that `text` starts with, or 0 where it starts
/// with none. A placeholder is `{`, word characters, `}`. An expression is
/// `{{`, anything but a line feed up to the nearest `}}`, and that `}}`.
pub open spec fn token_len(text: Seq<char>, expression: bool) -> int {
    if expression {
        if text.len() >= 2 && text[0] == '{' && text[1] == '{' && closing_at(text.skip(2)) >= 0 {
            closing_at(text.skip(2)) + 4
        } else {
            0
        }
    } else {
        if text.len() > 0 && text[0] == '{' && word_run(text.skip(1)) + 1 < text.len() && text[word_run(
            text.skip(1),
        ) + 1] == '}' {
            word_run(text.skip(1)) + 2
        } else {
            0
        }
    }
}

/// The tokens of one class in `text`, from the left, none overlapping
/// another.
pub open spec fn tokens(text: Seq<char>, expression: bool) -> Seq<Seq<char>>
    decreases text.len(),
{
    if text.len() == 0 {
        Seq::empty()
    } else {
        let n = token_len(text, expression);
        if 0 < n <= text.len() {
            seq![text.take(n)] + tokens(text.skip(n), expression)
        } else {
            tokens(text.skip(1), expression)
        }
    }
}

/// A token without `n` characters at each end.
pub open spec fn stripped(token: Seq<char>, n: int) -> Seq<char> {
    if token.len() >= 2 * n {
        token.subrange(n, token.len() - n)
    } else {
        Seq::empty()
    }
}

/// Why a template could not be filled or expanded.
#[derive(Debug)]
pub enum TemplateError {
    /// The map has no value for the placeholder `{key}`.
    MissingSubstitutionKey { key: String },
    /// The expression is none that is evaluated, or its evaluation failed.
    EvaluationFailed { expression: String },
    /// The expression came to something that is neither number nor string.
    UnsupportedValue { expression: String },
}

/// `TemplateError` with texts in place of strings.
pub enum Failure {
    MissingSubstitutionKey { key: Seq<char> },
    EvaluationFailed { expression: Seq<char> },
    UnsupportedValue { expression: Seq<char> },
}

impl View for TemplateError {
    type V = Failure;

    open spec fn view(&self) -> Failure {
        match *self {
            TemplateError::MissingSubstitutionKey { key } => Failure::MissingSubstitutionKey {
                key: key@,
            },
            TemplateError::EvaluationFailed { expression } => Failure::EvaluationFailed {
                expression: expression@,
            },
            TemplateError::UnsupportedValue { expression } => Failure::UnsupportedValue {
                expression: expression@,
            },
        }
    }
}

impl TemplateError {
    /// The error in words.
    pub fn message(&self) -> (text: String)
        ensures
            self is MissingSubstitutionKey ==> text@ == "no substitution found for key: "@
                + self->key@,
            self is EvaluationFailed ==> text@ == "could not evaluate expression: "@
                + self->EvaluationFailed_expression@,
            self is UnsupportedValue ==> text@
                == "expression is neither a number nor a string: "@
                + self->UnsupportedValue_expression@,
    {
        let mut out: Vec<char> = Vec::new();
        match self {
            TemplateError::MissingSubstitutionKey { key } => {
                crate::text::push_str(&mut out, "no substitution found for key: ");
                crate::text::push_str(&mut out, key.as_str());
            },
            TemplateError::EvaluationFailed { expression } => {
                crate::text::push_str(&mut out, "could not evaluate expression: ");
                crate::text::push_str(&mut out, expression.as_str());
            },
            TemplateError::UnsupportedValue { expression } => {
                crate::text::push_str(&mut out, "expression is neither a number nor a string: ");
                crate::text::push_str(&mut out, expression.as_str());
            },
        }
        from_chars(&out)
    }
}

/// `text` after each token, in order, was replaced by the value that `map`
/// has for the token's key; the first key without a value is the failure.
pub open spec fn fill(text: Seq<char>, placeholders: Seq<Seq<char>>, map: Dict<String>) -> Result<
    Seq<char>,
    Failure,
>
    decreases placeholders.len(),
{
    if placeholders.len() == 0 {
        Ok(text)
    } else {
        let key = stripped(placeholders[0], 1);
        match map.lookup(key) {
            Some(value) => fill(replace(text, placeholders[0], value@), placeholders.skip(1), map),
            None => Err(Failure::MissingSubstitutionKey { key }),
        }
    }
}

/// What an expression came to.
#[derive(Debug)]
pub enum Evaluation {
    /// A number or a string, as text.
    Text(String),
    /// Something else.
    Unsupported,
}

/// `eval::Error`, the error of an evaluation, of which nothing is read.
#[verifier::external_type_specification]
#[verifier::external_body]
pub struct ExEvalError(eval::Error);

/// What evaluating an expression ends in.
pub enum Outcome {
    Text(Seq<char>),
    Unsupported,
    Failed,
}

/// An evaluation's result as an `Outcome`.
pub open spec fn outcome_of(result: Result<Evaluation, eval::Error>) -> Outcome {
    match result {
        Ok(Evaluation::Text(text)) => Outcome::Text(text@),
        Ok(Evaluation::Unsupported) => Outcome::Unsupported,
        Err(_) => Outcome::Failed,
    }
}

/// What `eval::Expr::exec` makes of `expression` where `$i` is the number
/// `index` and `$val` the string `item`.
pub uninterp spec fn evaluated(expression: Seq<char>, index: usize, item: Seq<char>) -> Outcome;

/// Evaluates `expression` with `eval::Expr::exec`, `$i` bound to the number
/// `index` and `$val` to the string `item`. A number comes back as the text
/// that `serde_json` writes for it, a string as it is, any other value as
/// `Unsupported`, and the crate's error as it is. Claimed: what comes back
/// depends on the three arguments alone.
///
/// `eval` ends the process on some expressions, so only those that are
/// `evaluable` are handed to it. In such an expression every character is
/// one of ASCII, so `eval` cuts it where it counts; there is no square
/// bracket, no comma, no call and no `%`; every `)` closes a `(` that holds a
/// term, and every operator stands between two terms, so its tree has two
/// branches at each operator and none is empty; the brackets are no deeper
/// than `LENGTH`; and no number in it, nor anything that sums, differences
/// and products of its numbers can come to, is beyond `LIMIT`, the greatest
/// number that `eval` converts and computes with.
#[verifier::external_body]
fn evaluate(expression: &str, index: usize, item: &str) -> (result: Result<Evaluation, eval::Error>)
    requires
        evaluable(expression@, index),
    ensures
        outcome_of(result) == evaluated(expression@, index, item@),
{
    match eval::Expr::new(expression).value("$i", index).value("$val", item).exec() {
        Ok(eval::Value::Number(number)) => Ok(Evaluation::Text(number.to_string())),
        Ok(eval::Value::String(string)) => Ok(Evaluation::Text(string)),
        Ok(_) => Ok(Evaluation::Unsupported),
        Err(error) => Err(error),
    }
}

/// `text` after `token` was replaced by what its expression ended in.
pub open spec fn replaced_by(text: Seq<char>, token: Seq<char>, outcome: Outcome) -> Result<
    Seq<char>,
    Failure,
> {
    match outcome {
        Outcome::Text(value) => Ok(replace(text, token, value)),
        Outcome::Unsupported => Err(Failure::UnsupportedValue { expression: stripped(token, 2) }),
        Outcome::Failed => Err(Failure::EvaluationFailed { expression: stripped(token, 2) }),
    }
}

/// What the expression `expression` ends in for the item `item` at `index`:
/// what its evaluation ends in where it is handed on for evaluation, and a
/// failure where it is not.
pub open spec fn outcome(expression: Seq<char>, index: usize, item: Seq<char>) -> Outcome {
    if evaluable(expression, index) {
        evaluated(expression, index, item)
    } else {
        Outcome::Failed
    }
}

/// `text` after each expression token, in order, was replaced by what its
/// expression comes to for the item `item` at `index`; the first expression
/// that comes to nothing usable is the failure.
pub open spec fn render(text: Seq<char>, expressions: Seq<Seq<char>>, index: usize, item: Seq<char>)
    -> Result<Seq<char>, Failure>
    decreases expressions.len(),
{
    if expressions.len() == 0 {
        Ok(text)
    } else {
        let ended = outcome(stripped(expressions[0], 2), index, item);
        match replaced_by(text, expressions[0], ended) {
            Ok(next) => render(next, expressions.skip(1), index, item),
            Err(failure) => Err(failure),
        }
    }
}

/// `render` for the first `count` of `items`, each with its index; the
/// first failure, in the order of the items, is the failure of all.
pub open spec fn render_each(
    text: Seq<char>,
    expressions: Seq<Seq<char>>,
    items: Seq<Seq<char>>,
    count: int,
) -> Result<Seq<Seq<char>>, Failure>
    decreases count,
{
    if count <= 0 || count > items.len() {
        Ok(Seq::empty())
    } else {
        match render_each(text, expressions, items, count - 1) {
            Ok(done) => match render(text, expressions, (count - 1) as usize, items[count - 1]) {
                Ok(line) => Ok(done.push(line)),
                Err(failure) => Err(failure),
            },
            Err(failure) => Err(failure),
        }
    }
}

/// The view of a result that holds strings.
pub open spec fn strings_view(result: Result<Vec<String>, TemplateError>) -> Result<
    Seq<Seq<char>>,
    Failure,
> {
    match result {
        Ok(strings) => Ok(views(strings@)),
        Err(error) => Err(error@),
    }
}

/// The view of a result that holds a string.
pub open spec fn string_view(result: Result<String, TemplateError>) -> Result<Seq<char>, Failure> {
    match result {
        Ok(string) => Ok(string@),
        Err(error) => Err(error@),
    }
}

/// A run of word characters lies within the text.
pub proof fn lemma_word_run(text: Seq<char>)
    ensures
        0 <= word_run(text) <= text.len(),
    decreases text.len(),
{
    if text.len() > 0 && is_word_char(text[0]) {
        lemma_word_run(text.skip(1));
    }
}

/// The `}}` that closes an expression lies within the text.
pub proof fn lemma_closing_at(text: Seq<char>)
    ensures
        -1 <= closing_at(text),
        closing_at(text) >= 0 ==> closing_at(text) + 2 <= text.len(),
    decreases text.len(),
{
    if text.len() >= 2 && !(text[0] == '}' && text[1] == '}') && text[0] != '\n' {
        lemma_closing_at(text.skip(1));
    }
}

/// A token is at least two characters long, an expression at least four,
/// and none is longer than the text.
pub proof fn lemma_token_len(text: Seq<char>, expression: bool)
    ensures
        0 <= token_len(text, expression) <= text.len(),
        token_len(text, expression) > 0 ==> token_len(text, expression) >= (if expression {
            4int
        } else {
            2int
        }),
{
    if text.len() > 0 {
        lemma_word_run(text.skip(1));
    }
    if text.len() >= 2 {
        lemma_closing_at(text.skip(2));
    }
}

/// A failure among the first items is the failure of the whole list.
pub proof fn lemma_render_each_failure(
    text: Seq<char>,
    expressions: Seq<Seq<char>>,
    items: Seq<Seq<char>>,
    count: int,
    more: int,
)
    requires
        0 <= count <= more <= items.len(),
        render_each(text, expressions, items, count) is Err,
    ensures
        render_each(text, expressions, items, more) == render_each(text, expressions, items, count),
    decreases more - count,
{
    if count < more {
        lemma_render_each_failure(text, expressions, items, count, more - 1);
    }
}

/// An expansion that succeeds has one text for each item, in the order of
/// the items: the text at an index is the rendering for the item at that
/// index.
pub proof fn lemma_render_each_index(
    text: Seq<char>,
    expressions: Seq<Seq<char>>,
    items: Seq<Seq<char>>,
    count: int,
)
    requires
        0 <= count <= items.len(),
        render_each(text, expressions, items, count) is Ok,
    ensures
        render_each(text, expressions, items, count)->Ok_0.len() == count,
        forall|i: int|
            0 <= i < count ==> render(text, expressions, i as usize, #[trigger] items[i]) == Ok::<
                Seq<char>,
                Failure,
            >(render_each(text, expressions, items, count)->Ok_0[i]),
    decreases count,
{
    if count > 0 {
        lemma_render_each_index(text, expressions, items, count - 1);
    }
}

/// Filling succeeds just when the map has a value for the key of every
/// placeholder.
pub proof fn lemma_fill_succeeds(text: Seq<char>, placeholders: Seq<Seq<char>>, map: Dict<String>)
    ensures
        fill(text, placeholders, map) is Ok <==> forall|i: int|
            0 <= i < placeholders.len() ==> map.has(stripped(#[trigger] placeholders[i], 1)),
    decreases placeholders.len(),
{
    if placeholders.len() > 0 {
        let key = stripped(placeholders[0], 1);
        let rest = placeholders.skip(1);
        if map.has(key) {
            let next = replace(text, placeholders[0], map.lookup(key)->0@);
            lemma_fill_succeeds(next, rest, map);
            if fill(text, placeholders, map) is Ok {
                assert forall|i: int| 0 <= i < placeholders.len() implies map.has(
                    stripped(#[trigger] placeholders[i], 1),
                ) by {
                    if i > 0 {
                        assert(placeholders[i] == rest[i - 1]);
                    }
                }
            } else {
                let i = choose|i: int| 0 <= i < rest.len() && !map.has(stripped(rest[i], 1));
                assert(placeholders[i + 1] == rest[i]);
            }
        } else {
            assert(!map.has(stripped(placeholders[0], 1)));
        }
    }
}

/// The length of the token at `text[at..]`.
#[verifier::loop_isolation(false)]
fn token_len_at(text: &Vec<char>, at: usize, expression: bool) -> (n: usize)
    requires
        at < text.len(),
    ensures
        n == token_len(text@.skip(at as int), expression),
        n <= text.len() - at,
{
    let ghost rest = text@.skip(at as int);
    proof {
        lemma_token_len(rest, expression);
    }
    if text[at] != '{' {
        return 0;
    }
    if expression {
        if text.len() - at < 2 || text[at + 1] != '{' {
            return 0;
        }
        let mut j: usize = at + 2;
        assert(rest.skip(2) =~= text@.skip(j as int));
        while j < text.len()
            invariant
                at + 2 <= j <= text.len(),
                closing_at(text@.skip(at + 2)) == (if closing_at(text@.skip(j as int)) < 0 {
                    -1
                } else {
                    closing_at(text@.skip(j as int)) + (j - (at + 2))
                }),
            decreases text.len() - j,
        {
            let ghost here = text@.skip(j as int);
            if text.len() - j < 2 {
                return 0;
            }
            if text[j] == '}' && text[j + 1] == '}' {
                return j + 2 - at;
            }
            if text[j] == '\n' {
                return 0;
            }
            assert(here.skip(1) =~= text@.skip(j + 1));
            j += 1;
        }
        0
    } else {
        let mut j: usize = at + 1;
        assert(rest.skip(1) =~= text@.skip(j as int));
        while j < text.len() && char_is_word(text[j])
            invariant
                at + 1 <= j <= text.len(),
                word_run(text@.skip(at + 1)) == (j - (at + 1)) + word_run(text@.skip(j as int)),
            decreases text.len() - j,
        {
            assert(text@.skip(j as int).skip(1) =~= text@.skip(j + 1));
            j += 1;
        }
        if j < text.len() && text[j] == '}' {
            j + 1 - at
        } else {
            0
        }
    }
}

/// The tokens of one class in `text`.
fn scan(text: &Vec<char>, expression: bool) -> (out: Vec<String>)
    ensures
        views(out@) == tokens(text@, expression),
{
    let mut out: Vec<String> = Vec::new();
    let mut i: usize = 0;
    assert(text@.skip(0) =~= text@);
    assert(views(out@) + tokens(text@, expression) =~= tokens(text@, expression));
    while i < text.len()
        invariant
            i <= text.len(),
            views(out@) + tokens(text@.skip(i as int), expression) == tokens(text@, expression),
        decreases text.len() - i,
    {
        let ghost rest = text@.skip(i as int);
        let ghost before = views(out@);
        let n = token_len_at(text, i, expression);
        if n > 0 {
            let token = string_of(text, i, i + n);
            out.push(token);
            assert(rest.take(n as int) =~= text@.subrange(i as int, i + n));
            assert(rest.skip(n as int) =~= text@.skip(i + n));
            assert(views(out@) =~= before.push(token@));
            assert(before + (seq![token@] + tokens(text@.skip(i + n), expression))
                =~= before.push(token@) + tokens(text@.skip(i + n), expression));
            i += n;
        } else {
            assert(rest.skip(1) =~= text@.skip(i + 1));
            i += 1;
        }
    }
    assert(text@.skip(text.len() as int) =~= Seq::<char>::empty());
    assert(views(out@) + Seq::<Seq<char>>::empty() =~= views(out@));
    out
}

/// `token` without `n` characters at each end.
fn strip(token: &str, n: usize) -> (out: String)
    requires
        n <= 2,
    ensures
        out@ == stripped(token@, n as int),
{
    let chars = to_chars(token);
    if chars.len() >= 2 * n {
        string_of(&chars, n, chars.len() - n)
    } else {
        String::new()
    }
}

/// A template and the tokens found in it.
#[derive(Debug)]
pub struct Template {
    template: String,
    substitutions: Vec<String>,
    expansions: Vec<String>,
}

impl Template {
    /// The template's text.
    pub closed spec fn text(self) -> Seq<char> {
        self.template@
    }

    /// The placeholders `{name}` of the text, in order.
    pub closed spec fn substitutions(self) -> Seq<Seq<char>> {
        views(self.substitutions@)
    }

    /// The expressions `{{...}}` of the text, in order.
    pub closed spec fn expansions(self) -> Seq<Seq<char>> {
        views(self.expansions@)
    }

    /// Reads `template` once for its two classes of tokens.
    pub fn new(template: &str) -> (parsed: Template)
        ensures
            parsed.text() == template@,
            parsed.substitutions() == tokens(template@, false),
            parsed.expansions() == tokens(template@, true),
    {
        let chars = to_chars(template);
        Template {
            template: from_chars(&chars),
            substitutions: scan(&chars, false),
            expansions: scan(&chars, true),
        }
    }

    /// The template's text.
    pub fn as_str(&self) -> (text: &str)
        ensures
            text@ == self.text(),
    {
        self.template.as_str()
    }

    /// The placeholders of the text, in order.
    pub fn placeholders(&self) -> (found: &Vec<String>)
        ensures
            views(found@) == self.substitutions(),
    {
        &self.substitutions
    }

    /// The expressions of the text, in order.
    pub fn expressions(&self) -> (found: &Vec<String>)
        ensures
            views(found@) == self.expansions(),
    {
        &self.expansions
    }

    /// The template's text with each placeholder replaced by the value that
    /// `map` has for its key. Where `map` lacks a key, nothing is returned
    /// but the error that names the first such key.
    pub fn substitute(&self, map: &Dict<String>) -> (result: Result<String, TemplateError>)
        ensures
            string_view(result) == fill(self.text(), self.substitutions(), *map),
    {
        let mut current = to_chars(self.template.as_str());
        let n = self.substitutions.len();
        let mut i: usize = 0;
        assert(self.substitutions().skip(0) =~= self.substitutions());
        while i < n
            invariant
                i <= n,
                n == self.substitutions.len(),
                fill(current@, self.substitutions().skip(i as int), *map) == fill(
                    self.text(),
                    self.substitutions(),
                    *map,
                ),
            decreases n - i,
        {
            let token = self.substitutions[i].as_str();
            let key = strip(token, 1);
            assert(self.substitutions().skip(i as int)[0] == token@);
            assert(self.substitutions().skip(i as int).skip(1) =~= self.substitutions().skip(
                i + 1,
            ));
            match map.get(key.as_str()) {
                Some(value) => {
                    let pattern = to_chars(token);
                    let with = to_chars(value.as_str());
                    current = replace_chars(&current, &pattern, &with);
                },
                None => {
                    return Err(TemplateError::MissingSubstitutionKey { key });
                },
            }
            i += 1;
        }
        Ok(from_chars(&current))
    }

    /// One step of an expansion: `text` with `token` replaced by what its
    /// expression was evaluated to, or the error where it came to nothing
    /// usable.
    pub fn replace_token(text: &str, token: &str, evaluation: Result<Evaluation, eval::Error>) -> (result:
        Result<String, TemplateError>)
        ensures
            string_view(result) == replaced_by(text@, token@, outcome_of(evaluation)),
    {
        match evaluation {
            Ok(Evaluation::Text(value)) => {
                Ok(crate::text::replace_str(text, token, value.as_str()))
            },
            Ok(Evaluation::Unsupported) => Err(
                TemplateError::UnsupportedValue { expression: strip(token, 2) },
            ),
            Err(_) => Err(TemplateError::EvaluationFailed { expression: strip(token, 2) }),
        }
    }

    /// The text that `base` becomes for one item: each expression is
    /// evaluated with `$i` as `index` and `$val` as `item`, and its token
    /// replaced by the result. An expression that is not `evaluable` is not
    /// evaluated, and is the failure.
    fn render_item(&self, base: &str, index: usize, item: &str) -> (result: Result<
        String,
        TemplateError,
    >)
        ensures
            string_view(result) == render(base@, self.expansions(), index, item@),
    {
        let mut current = base.to_owned();
        let n = self.expansions.len();
        let mut i: usize = 0;
        assert(self.expansions().skip(0) =~= self.expansions());
        while i < n
            invariant
                i <= n,
                n == self.expansions.len(),
                render(current@, self.expansions().skip(i as int), index, item@) == render(
                    base@,
                    self.expansions(),
                    index,
                    item@,
                ),
            decreases n - i,
        {
            let token = self.expansions[i].as_str();
            let expression = strip(token, 2);
            assert(self.expansions().skip(i as int)[0] == token@);
            assert(self.expansions().skip(i as int).skip(1) =~= self.expansions().skip(i + 1));
            if !can_evaluate(expression.as_str(), index) {
                return Err(TemplateError::EvaluationFailed { expression });
            }
            let evaluation = evaluate(expression.as_str(), index, item);
            match Template::replace_token(current.as_str(), token, evaluation) {
                Ok(next) => {
                    current = next;
                },
                Err(error) => {
                    return Err(error);
                },
            }
            i += 1;
        }
        Ok(current)
    }

    /// One text for each item of `input`, in the order of the items: the
    /// template with its placeholders filled from `map` and its expressions
    /// evaluated for the item and its index, counted from 0. The first
    /// failure ends the whole expansion.
    pub fn expand(&self, input: &Vec<String>, map: &Dict<String>) -> (result: Result<
        Vec<String>,
        TemplateError,
    >)
        ensures
            strings_view(result) == (match fill(self.text(), self.substitutions(), *map) {
                Ok(base) => render_each(
                    base,
                    self.expansions(),
                    views(input@),
                    input.len() as int,
                ),
                Err(failure) => Err(failure),
            }),
            result matches Ok(lines) ==> lines.len() == input.len(),
    {
        let base = match self.substitute(map) {
            Ok(base) => base,
            Err(error) => {
                return Err(error);
            },
        };
        let mut out: Vec<String> = Vec::new();
        let mut i: usize = 0;
        assert(views(out@) =~= Seq::<Seq<char>>::empty());
        while i < input.len()
            invariant
                i <= input.len(),
                out.len() == i,
                fill(self.text(), self.substitutions(), *map) == Ok::<Seq<char>, Failure>(base@),
                render_each(base@, self.expansions(), views(input@), i as int) == Ok::<
                    Seq<Seq<char>>,
                    Failure,
                >(views(out@)),
            decreases input.len() - i,
        {
            let ghost before = views(out@);
            match self.render_item(base.as_str(), i, input[i].as_str()) {
                Ok(line) => {
                    out.push(line);
                    assert(views(out@) =~= before.push(line@));
                },
                Err(error) => {
                    proof {
                        assert(views(input@)[i as int] == input@[i as int]@);
                        assert(render_each(base@, self.expansions(), views(input@), i + 1)
                            == Err::<Seq<Seq<char>>, Failure>(error@));
                        lemma_render_each_failure(
                            base@,
                            self.expansions(),
                            views(input@),
                            i + 1,
                            input.len() as int,
                        );
                    }
                    return Err(error);
                },
            }
            i += 1;
        }
        Ok(out)
    }
}

} // verus!
