//! Text as sequences of characters: the functions every other module states
//! its contracts with, and their executable counterparts.

use vstd::prelude::*;

verus! {

/// `String::push` appends one character.
pub assume_specification[ String::push ](s: &mut String, c: char)
    ensures
        final(s)@ == old(s)@.push(c),
;

/// The characters with the Unicode property `White_Space`.
pub open spec fn is_whitespace(c: char) -> bool {
    ||| ('\u{9}' <= c && c <= '\u{D}')
    ||| c == ' '
    ||| c == '\u{85}'
    ||| c == '\u{A0}'
    ||| c == '\u{1680}'
    ||| ('\u{2000}' <= c && c <= '\u{200A}')
    ||| c == '\u{2028}'
    ||| c == '\u{2029}'
    ||| c == '\u{202F}'
    ||| c == '\u{205F}'
    ||| c == '\u{3000}'
}

/// Letters, digits and the underscore of ASCII.
pub open spec fn is_word_char(c: char) -> bool {
    ||| c == '_'
    ||| ('a' <= c && c <= 'z')
    ||| ('A' <= c && c <= 'Z')
    ||| ('0' <= c && c <= '9')
}

/// `text` without its leading whitespace.
pub open spec fn trim_start(text: Seq<char>) -> Seq<char>
    decreases text.len(),
{
    if text.len() > 0 && is_whitespace(text[0]) {
        trim_start(text.skip(1))
    } else {
        text
    }
}

/// `text` without its trailing whitespace.
pub open spec fn trim_end(text: Seq<char>) -> Seq<char>
    decreases text.len(),
{
    if text.len() > 0 && is_whitespace(text.last()) {
        trim_end(text.drop_last())
    } else {
        text
    }
}

/// `text` without leading and trailing whitespace.
pub open spec fn trim(text: Seq<char>) -> Seq<char> {
    trim_end(trim_start(text))
}

/// Whether `pattern` stands in `text` at index `at`.
pub open spec fn occurs_at(text: Seq<char>, at: int, pattern: Seq<char>) -> bool {
    &&& 0 <= at
    &&& at + pattern.len() <= text.len()
    &&& text.subrange(at, at + pattern.len()) == pattern
}

/// `text` with every occurrence of `pattern` replaced by `with`, the
/// occurrences taken from the left and not overlapping. An empty pattern
/// occurs nowhere.
pub open spec fn replace(text: Seq<char>, pattern: Seq<char>, with: Seq<char>) -> Seq<char>
    decreases text.len(),
{
    if pattern.len() == 0 || text.len() < pattern.len() {
        text
    } else if occurs_at(text, 0, pattern) {
        with + replace(text.skip(pattern.len() as int), pattern, with)
    } else {
        seq![text[0]] + replace(text.skip(1), pattern, with)
    }
}

/// The index of the first `c` in `text`, or the length of `text`.
pub open spec fn index_of(text: Seq<char>, c: char) -> int
    decreases text.len(),
{
    if text.len() == 0 || text[0] == c {
        0
    } else {
        1 + index_of(text.skip(1), c)
    }
}

/// The index of the last `c` in `text`, or -1.
pub open spec fn last_index_of(text: Seq<char>, c: char) -> int
    decreases text.len(),
{
    if text.len() == 0 {
        -1
    } else if text.last() == c {
        text.len() - 1
    } else {
        last_index_of(text.drop_last(), c)
    }
}

/// The views of a sequence of strings.
pub open spec fn views(strings: Seq<String>) -> Seq<Seq<char>> {
    strings.map_values(|s: String| s@)
}

/// The views of a sequence of string slices.
pub open spec fn slice_views(strings: Seq<&str>) -> Seq<Seq<char>> {
    strings.map_values(|s: &str| s@)
}

/// `index_of` finds the first `c`, and the length where there is none.
pub proof fn lemma_index_of_bounds(text: Seq<char>, c: char)
    ensures
        0 <= index_of(text, c) <= text.len(),
        index_of(text, c) < text.len() ==> text[index_of(text, c)] == c,
        forall|i: int| 0 <= i < index_of(text, c) ==> text[i] != c,
    decreases text.len(),
{
    if text.len() == 0 || text[0] == c {
    } else {
        let rest = text.skip(1);
        lemma_index_of_bounds(rest, c);
        assert forall|i: int| 0 <= i < index_of(text, c) implies text[i] != c by {
            if i > 0 {
                assert(text[i] == rest[i - 1]);
            }
        }
    }
}

/// `last_index_of` finds the last `c`, and -1 where there is none.
pub proof fn lemma_last_index_of_bounds(text: Seq<char>, c: char)
    ensures
        -1 <= last_index_of(text, c) < text.len(),
        last_index_of(text, c) >= 0 ==> text[last_index_of(text, c)] == c,
        forall|i: int| last_index_of(text, c) < i < text.len() ==> text[i] != c,
    decreases text.len(),
{
    if text.len() == 0 {
    } else if text.last() == c {
    } else {
        let rest = text.drop_last();
        lemma_last_index_of_bounds(rest, c);
        assert forall|i: int| last_index_of(text, c) < i < text.len() implies text[i] != c by {
            if i < text.len() - 1 {
                assert(text[i] == rest[i]);
            }
        }
    }
}

/// Dropping whitespace characters in front leads to `trim_start`.
pub proof fn lemma_trim_start_skip(text: Seq<char>, n: int)
    requires
        0 <= n <= text.len(),
        forall|i: int| 0 <= i < n ==> is_whitespace(text[i]),
    ensures
        trim_start(text) == trim_start(text.skip(n)),
    decreases n,
{
    if n > 0 {
        let rest = text.skip(1);
        assert forall|i: int| 0 <= i < n - 1 implies is_whitespace(rest[i]) by {
            assert(rest[i] == text[i + 1]);
        }
        lemma_trim_start_skip(rest, n - 1);
        assert(rest.skip(n - 1) =~= text.skip(n));
    } else {
        assert(text.skip(0) =~= text);
    }
}

/// Dropping whitespace characters at the end leads to `trim_end`.
pub proof fn lemma_trim_end_take(text: Seq<char>, n: int)
    requires
        0 <= n <= text.len(),
        forall|i: int| n <= i < text.len() ==> is_whitespace(text[i]),
    ensures
        trim_end(text) == trim_end(text.take(n)),
    decreases text.len() - n,
{
    if n < text.len() {
        let rest = text.drop_last();
        lemma_trim_end_take(rest, n);
        assert(rest.take(n) =~= text.take(n));
    } else {
        assert(text.take(n) =~= text);
    }
}

/// What `trim` leaves neither starts nor ends with whitespace, and is a
/// piece of the text.
pub proof fn lemma_trim_shape(text: Seq<char>)
    ensures
        trim(text).len() <= text.len(),
        trim(text).len() > 0 ==> !is_whitespace(trim(text)[0]) && !is_whitespace(
            trim(text).last(),
        ),
        trim(trim(text)) == trim(text),
{
    lemma_trim_start_shape(text);
    lemma_trim_end_shape(trim_start(text));
    let t = trim(text);
    if t.len() > 0 {
        assert(trim_end(t) == t);
        lemma_trim_end_keeps_first(trim_start(text));
        assert(trim_start(t) == t);
    } else {
        assert(trim_start(t) == t);
        assert(trim_end(t) == t);
    }
}

/// What `trim_start` leaves is no longer than the text and starts with no
/// whitespace.
pub proof fn lemma_trim_start_shape(text: Seq<char>)
    ensures
        trim_start(text).len() <= text.len(),
        trim_start(text).len() > 0 ==> !is_whitespace(trim_start(text)[0]),
    decreases text.len(),
{
    if text.len() > 0 && is_whitespace(text[0]) {
        lemma_trim_start_shape(text.skip(1));
    }
}

/// What `trim_end` leaves is the front of the text and ends with no
/// whitespace.
pub proof fn lemma_trim_end_shape(text: Seq<char>)
    ensures
        trim_end(text).len() <= text.len(),
        trim_end(text).len() > 0 ==> !is_whitespace(trim_end(text).last()),
        trim_end(text) == text.take(trim_end(text).len() as int),
    decreases text.len(),
{
    if text.len() > 0 && is_whitespace(text.last()) {
        let rest = text.drop_last();
        lemma_trim_end_shape(rest);
        assert(rest.take(trim_end(rest).len() as int) =~= text.take(trim_end(rest).len() as int));
    } else {
        assert(text.take(text.len() as int) =~= text);
    }
}

/// `trim_end` keeps the first character of what it leaves.
proof fn lemma_trim_end_keeps_first(text: Seq<char>)
    ensures
        trim_end(text).len() > 0 ==> trim_end(text)[0] == text[0],
{
    lemma_trim_end_shape(text);
}

/// What `trim_start` drops is whitespace, and what it keeps starts with
/// none.
pub proof fn lemma_trim_start_dropped(text: Seq<char>)
    ensures
        trim_start(text).len() <= text.len(),
        trim_start(text) == text.skip(text.len() - trim_start(text).len()),
        forall|i: int| 0 <= i < text.len() - trim_start(text).len() ==> is_whitespace(text[i]),
        trim_start(text).len() > 0 ==> !is_whitespace(trim_start(text)[0]),
    decreases text.len(),
{
    if text.len() > 0 && is_whitespace(text[0]) {
        let rest = text.skip(1);
        lemma_trim_start_dropped(rest);
        let n = rest.len() - trim_start(rest).len();
        assert(rest.skip(n) =~= text.skip(n + 1));
        assert forall|i: int| 0 <= i < text.len() - trim_start(text).len() implies is_whitespace(
            text[i],
        ) by {
            if i > 0 {
                assert(text[i] == rest[i - 1]);
            }
        }
    } else {
        assert(text.skip(0) =~= text);
    }
}

/// What `trim_end` drops is whitespace, and what it keeps ends with none.
pub proof fn lemma_trim_end_dropped(text: Seq<char>)
    ensures
        trim_end(text).len() <= text.len(),
        trim_end(text) == text.take(trim_end(text).len() as int),
        forall|i: int| trim_end(text).len() <= i < text.len() ==> is_whitespace(text[i]),
        trim_end(text).len() > 0 ==> !is_whitespace(trim_end(text).last()),
    decreases text.len(),
{
    lemma_trim_end_shape(text);
    if text.len() > 0 && is_whitespace(text.last()) {
        let rest = text.drop_last();
        lemma_trim_end_dropped(rest);
        assert forall|i: int| trim_end(text).len() <= i < text.len() implies is_whitespace(
            text[i],
        ) by {
            if i < text.len() - 1 {
                assert(text[i] == rest[i]);
            }
        }
    }
}

/// A text is its own `trim` just when it neither starts nor ends with
/// whitespace.
pub proof fn lemma_trimmed(text: Seq<char>)
    ensures
        trim(text) == text <==> (text.len() == 0 || (!is_whitespace(text[0]) && !is_whitespace(
            text.last(),
        ))),
{
    lemma_trim_shape(text);
    if text.len() > 0 && !is_whitespace(text[0]) && !is_whitespace(text.last()) {
        assert(trim_start(text) == text);
        assert(trim_end(text) == text);
    }
    if text.len() == 0 {
        assert(trim_start(text) == text);
        assert(trim_end(text) == text);
    }
}

/// The first place at which `c` stands is what `index_of` finds.
pub proof fn lemma_index_of_is(text: Seq<char>, c: char, at: int)
    requires
        0 <= at < text.len(),
        text[at] == c,
        forall|i: int| 0 <= i < at ==> text[i] != c,
    ensures
        index_of(text, c) == at,
{
    lemma_index_of_bounds(text, c);
}

/// Whether `c` is whitespace.
pub fn char_is_whitespace(c: char) -> (r: bool)
    ensures
        r == is_whitespace(c),
{
    (c >= '\u{9}' && c <= '\u{D}') || c == ' ' || c == '\u{85}' || c == '\u{A0}' || c
        == '\u{1680}' || (c >= '\u{2000}' && c <= '\u{200A}') || c == '\u{2028}' || c
        == '\u{2029}' || c == '\u{202F}' || c == '\u{205F}' || c == '\u{3000}'
}

/// Whether `c` is a word character.
pub fn char_is_word(c: char) -> (r: bool)
    ensures
        r == is_word_char(c),
{
    c == '_' || (c >= 'a' && c <= 'z') || (c >= 'A' && c <= 'Z') || (c >= '0' && c <= '9')
}

/// The characters of a string slice.
pub fn to_chars(s: &str) -> (out: Vec<char>)
    ensures
        out@ == s@,
{
    broadcast use vstd::string::group_string_axioms;

    let mut out: Vec<char> = Vec::new();
    for c in it: s.chars()
        invariant
            it.seq() == s@,
            out@ == s@.take(it.index() as int),
    {
        out.push(c);
    }
    assert(s@.take(s@.len() as int) == s@);
    out
}

/// The string made of the characters `chars[from..to]`.
pub fn string_of(chars: &Vec<char>, from: usize, to: usize) -> (out: String)
    requires
        from <= to <= chars.len(),
    ensures
        out@ == chars@.subrange(from as int, to as int),
{
    let mut out = String::new();
    let mut i: usize = from;
    while i < to
        invariant
            from <= i <= to <= chars.len(),
            out@ == chars@.subrange(from as int, i as int),
        decreases to - i,
    {
        out.push(chars[i]);
        i += 1;
    }
    out
}

/// The string made of all of `chars`.
pub fn from_chars(chars: &Vec<char>) -> (out: String)
    ensures
        out@ == chars@,
{
    let out = string_of(chars, 0, chars.len());
    assert(chars@.subrange(0, chars.len() as int) == chars@);
    out
}

/// Appends `src[from..to]` to `out`.
pub fn push_range(out: &mut Vec<char>, src: &Vec<char>, from: usize, to: usize)
    requires
        from <= to <= src.len(),
    ensures
        final(out)@ == old(out)@ + src@.subrange(from as int, to as int),
{
    let mut i: usize = from;
    while i < to
        invariant
            from <= i <= to <= src.len(),
            out@ == old(out)@ + src@.subrange(from as int, i as int),
        decreases to - i,
    {
        out.push(src[i]);
        i += 1;
    }
}

/// Appends all of `src` to `out`.
pub fn push_all(out: &mut Vec<char>, src: &Vec<char>)
    ensures
        final(out)@ == old(out)@ + src@,
{
    push_range(out, src, 0, src.len());
    assert(src@.subrange(0, src.len() as int) == src@);
}

/// Appends the characters of `src` to `out`.
pub fn push_str(out: &mut Vec<char>, src: &str)
    ensures
        final(out)@ == old(out)@ + src@,
{
    let chars = to_chars(src);
    push_all(out, &chars);
}

/// Whether `pattern` stands in `text` at index `at`.
pub fn occurs_at_exec(text: &Vec<char>, at: usize, pattern: &Vec<char>) -> (r: bool)
    ensures
        r == occurs_at(text@, at as int, pattern@),
{
    if at > text.len() || pattern.len() > text.len() - at {
        return false;
    }
    let mut i: usize = 0;
    while i < pattern.len()
        invariant
            i <= pattern.len(),
            at + pattern.len() <= text.len(),
            text@.subrange(at as int, at + i) == pattern@.take(i as int),
        decreases pattern.len() - i,
    {
        if text[at + i] != pattern[i] {
            assert(text@.subrange(at as int, at + pattern.len())[i as int] != pattern@[i as int]);
            return false;
        }
        assert(text@.subrange(at as int, at + i + 1) =~= text@.subrange(at as int, at + i).push(
            text@[at + i],
        ));
        assert(pattern@.take(i + 1) =~= pattern@.take(i as int).push(pattern@[i as int]));
        i += 1;
    }
    assert(pattern@.take(pattern.len() as int) =~= pattern@);
    true
}

/// Whether two texts hold the same characters.
pub fn chars_equal(a: &Vec<char>, b: &Vec<char>) -> (r: bool)
    ensures
        r == (a@ == b@),
{
    if a.len() != b.len() {
        return false;
    }
    let r = occurs_at_exec(a, 0, b);
    assert(a@.subrange(0, a.len() as int) =~= a@);
    r
}

/// Whether two string slices hold the same characters.
pub fn str_equal(a: &str, b: &str) -> (r: bool)
    ensures
        r == (a@ == b@),
{
    let x = to_chars(a);
    let y = to_chars(b);
    chars_equal(&x, &y)
}

/// `replace` on character vectors.
pub fn replace_chars(text: &Vec<char>, pattern: &Vec<char>, with: &Vec<char>) -> (out: Vec<char>)
    ensures
        out@ == replace(text@, pattern@, with@),
{
    let mut out: Vec<char> = Vec::new();
    if pattern.len() == 0 {
        push_all(&mut out, text);
        return out;
    }
    let mut i: usize = 0;
    assert(text@.skip(0) =~= text@);
    assert(out@ + text@ =~= text@);
    while i < text.len()
        invariant
            i <= text.len(),
            pattern.len() > 0,
            out@ + replace(text@.skip(i as int), pattern@, with@) == replace(
                text@,
                pattern@,
                with@,
            ),
        decreases text.len() - i,
    {
        let ghost rest = text@.skip(i as int);
        if text.len() - i < pattern.len() {
            assert(replace(rest, pattern@, with@) == rest);
            push_range(&mut out, text, i, text.len());
            assert(text@.subrange(i as int, text.len() as int) =~= rest);
            return out;
        }
        let found = occurs_at_exec(text, i, pattern);
        assert(rest.subrange(0, pattern.len() as int) =~= text@.subrange(
            i as int,
            i + pattern.len(),
        ));
        if found {
            assert(rest.skip(pattern.len() as int) =~= text@.skip(i + pattern.len()));
            let ghost before = out@;
            push_all(&mut out, with);
            assert(before + (with@ + replace(text@.skip(i + pattern.len()), pattern@, with@))
                =~= (before + with@) + replace(text@.skip(i + pattern.len()), pattern@, with@));
            i += pattern.len();
        } else {
            assert(rest.skip(1) =~= text@.skip(i + 1));
            let ghost before = out@;
            out.push(text[i]);
            assert(before + (seq![rest[0]] + replace(text@.skip(i + 1), pattern@, with@))
                =~= before.push(text@[i as int]) + replace(text@.skip(i + 1), pattern@, with@));
            i += 1;
        }
    }
    assert(text@.skip(text.len() as int) =~= Seq::<char>::empty());
    assert(out@ + Seq::<char>::empty() =~= out@);
    out
}

/// `replace` on string slices.
pub fn replace_str(text: &str, pattern: &str, with: &str) -> (out: String)
    ensures
        out@ == replace(text@, pattern@, with@),
{
    let t = to_chars(text);
    let p = to_chars(pattern);
    let w = to_chars(with);
    let r = replace_chars(&t, &p, &w);
    from_chars(&r)
}

/// Where `text[from..to]` without its leading whitespace starts.
pub fn trimmed_start(text: &Vec<char>, from: usize, to: usize) -> (start: usize)
    requires
        from <= to <= text.len(),
    ensures
        from <= start <= to,
        text@.subrange(start as int, to as int) == trim_start(
            text@.subrange(from as int, to as int),
        ),
{
    let ghost piece = text@.subrange(from as int, to as int);
    let mut start: usize = from;
    while start < to && char_is_whitespace(text[start])
        invariant
            from <= start <= to <= text.len(),
            piece == text@.subrange(from as int, to as int),
            forall|i: int| 0 <= i < start - from ==> is_whitespace(piece[i]),
        decreases to - start,
    {
        start += 1;
    }
    proof {
        lemma_trim_start_skip(piece, start - from);
        assert(piece.skip(start - from) =~= text@.subrange(start as int, to as int));
    }
    start
}

/// Where `text[from..to]` without its trailing whitespace ends.
pub fn trimmed_end(text: &Vec<char>, from: usize, to: usize) -> (end: usize)
    requires
        from <= to <= text.len(),
    ensures
        from <= end <= to,
        text@.subrange(from as int, end as int) == trim_end(text@.subrange(from as int, to as int)),
{
    let ghost piece = text@.subrange(from as int, to as int);
    let mut end: usize = to;
    while end > from && char_is_whitespace(text[end - 1])
        invariant
            from <= end <= to <= text.len(),
            piece == text@.subrange(from as int, to as int),
            forall|i: int| end - from <= i < piece.len() ==> is_whitespace(piece[i]),
        decreases end,
    {
        end -= 1;
    }
    proof {
        lemma_trim_end_take(piece, end - from);
        assert(piece.take(end - from) =~= text@.subrange(from as int, end as int));
    }
    end
}

/// `trim` on character vectors.
pub fn trim_chars(text: &Vec<char>) -> (out: Vec<char>)
    ensures
        out@ == trim(text@),
{
    let start = trimmed_start(text, 0, text.len());
    let end = trimmed_end(text, start, text.len());
    let mut out: Vec<char> = Vec::new();
    push_range(&mut out, text, start, end);
    assert(text@.subrange(0, text.len() as int) =~= text@);
    out
}

/// The index of the last `c` in `text`.
pub fn find_last_char(text: &Vec<char>, c: char) -> (at: Option<usize>)
    ensures
        match at {
            Some(i) => i == last_index_of(text@, c),
            None => last_index_of(text@, c) == -1,
        },
{
    let mut i: usize = text.len();
    assert(text@.take(i as int) =~= text@);
    while i > 0 && text[i - 1] != c
        invariant
            i <= text.len(),
            last_index_of(text@, c) == last_index_of(text@.take(i as int), c),
        decreases i,
    {
        assert(text@.take(i as int).drop_last() =~= text@.take(i - 1));
        i -= 1;
    }
    if i == 0 {
        None
    } else {
        Some(i - 1)
    }
}

/// The index of the first `c` in `text` at or after `from`, or the length
/// of `text`.
pub fn find_char(text: &Vec<char>, from: usize, c: char) -> (at: usize)
    requires
        from <= text.len(),
    ensures
        at == from + index_of(text@.skip(from as int), c),
        from <= at <= text.len(),
{
    let mut i: usize = from;
    while i < text.len() && text[i] != c
        invariant
            from <= i <= text.len(),
            from + index_of(text@.skip(from as int), c) == i + index_of(text@.skip(i as int), c),
        decreases text.len() - i,
    {
        assert(text@.skip(i as int).skip(1) =~= text@.skip(i + 1));
        i += 1;
    }
    i
}

} // verus!

verus! {

/// A copy of a list of strings.
pub fn clone_strings(strings: &Vec<String>) -> (copy: Vec<String>)
    ensures
        copy@ == strings@,
{
    let mut copy: Vec<String> = Vec::new();
    let mut i: usize = 0;
    while i < strings.len()
        invariant
            i <= strings.len(),
            copy@ == strings@.take(i as int),
        decreases strings.len() - i,
    {
        copy.push(strings[i].clone());
        assert(copy@ =~= strings@.take(i + 1));
        i += 1;
    }
    assert(strings@.take(strings.len() as int) =~= strings@);
    copy
}

/// Whether `text` is one of `strings`.
pub fn contains_text(strings: &Vec<String>, text: &str) -> (found: bool)
    ensures
        found == views(strings@).contains(text@),
{
    let mut i: usize = 0;
    while i < strings.len()
        invariant
            i <= strings.len(),
            forall|j: int| 0 <= j < i ==> views(strings@)[j] != text@,
        decreases strings.len() - i,
    {
        if str_equal(strings[i].as_str(), text) {
            assert(views(strings@)[i as int] == text@);
            return true;
        }
        i += 1;
    }
    false
}

} // verus!
