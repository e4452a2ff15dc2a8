//! File paths as texts, their components parted by `/`.

use vstd::prelude::*;

use crate::text::{
    find_char, index_of, last_index_of, lemma_index_of_bounds, lemma_last_index_of_bounds,
    occurs_at_exec, push_range, string_of,
};

verus! {

/// The last component of `path` that is a name: trailing separators and
/// components `.` are passed over, and a path that ends in `..` or has no
/// component has no such name.
pub open spec fn file_name(path: Seq<char>) -> Option<Seq<char>>
    decreases path.len(),
{
    if path.len() == 0 {
        None
    } else if path.last() == '/' {
        file_name(path.drop_last())
    } else {
        let start = last_index_of(path, '/') + 1;
        let name = path.subrange(start, path.len() as int);
        if name == seq!['.'] {
            if 0 < start < path.len() {
                file_name(path.take(start))
            } else {
                None
            }
        } else if name == seq!['.', '.'] {
            None
        } else {
            Some(name)
        }
    }
}

/// Where the extension of the file name `name` is parted from its stem: the
/// index of its last `.`, unless that is the first character or there is
/// none.
pub open spec fn stem_len(name: Seq<char>) -> int {
    if last_index_of(name, '.') <= 0 {
        name.len() as int
    } else {
        last_index_of(name, '.')
    }
}

/// The file name of `path` up to the `.` of its extension.
pub open spec fn file_stem(path: Seq<char>) -> Option<Seq<char>> {
    match file_name(path) {
        Some(name) => Some(name.take(stem_len(name))),
        None => None,
    }
}

/// What follows the last `.` of the file name of `path`, where that `.` is
/// not the name's first character.
pub open spec fn extension(path: Seq<char>) -> Option<Seq<char>> {
    match file_name(path) {
        Some(name) => if stem_len(name) < name.len() {
            Some(name.skip(stem_len(name) + 1))
        } else {
            None
        },
        None => None,
    }
}

/// The number of characters in front of `path` that are no part of a named
/// component: a root `/`, or a `.` that is the whole first component.
pub open spec fn fixed_len(path: Seq<char>) -> int {
    if path.len() > 0 && path[0] == '/' {
        1
    } else if path.len() > 0 && path[0] == '.' && (path.len() == 1 || path[1] == '/') {
        1
    } else {
        0
    }
}

/// Where the last component of `path` starts, looking no further to the
/// front than `fixed`.
pub open spec fn last_start(path: Seq<char>, fixed: int) -> int {
    if last_index_of(path, '/') >= fixed {
        last_index_of(path, '/') + 1
    } else {
        fixed
    }
}

/// The length of `path` without the separator in front of its last
/// component and without that component.
pub open spec fn without_last(path: Seq<char>, fixed: int) -> int {
    if last_index_of(path, '/') >= fixed {
        last_index_of(path, '/')
    } else {
        fixed
    }
}

/// The length of `path` without trailing separators and components `.`,
/// the first `fixed` characters left alone.
pub open spec fn body_len(path: Seq<char>, fixed: int) -> int
    decreases path.len(),
{
    if path.len() <= fixed || fixed < 0 {
        path.len() as int
    } else {
        let start = last_start(path, fixed);
        let component = path.subrange(start, path.len() as int);
        if (component.len() == 0 || component == seq!['.']) && without_last(path, fixed)
            < path.len() {
            body_len(path.take(without_last(path, fixed)), fixed)
        } else {
            path.len() as int
        }
    }
}

/// `path` without its last component. A path of nothing but a root, and the
/// empty path, have none.
pub open spec fn parent(path: Seq<char>) -> Option<Seq<char>> {
    let fixed = fixed_len(path);
    let whole = path.take(body_len(path, fixed));
    if whole.len() <= fixed {
        if fixed == 1 && path[0] == '.' {
            Some(Seq::empty())
        } else {
            None
        }
    } else {
        let rest = whole.take(without_last(whole, fixed));
        Some(rest.take(body_len(rest, fixed)))
    }
}

/// The number of characters in front of `text` that are separators or
/// components `.`.
pub open spec fn lead_len(text: Seq<char>) -> int
    decreases text.len(),
{
    if text.len() == 0 {
        0
    } else if text[0] == '/' {
        1 + lead_len(text.skip(1))
    } else if text[0] == '.' && (text.len() == 1 || text[1] == '/') {
        1 + lead_len(text.skip(1))
    } else {
        0
    }
}

/// The number of characters of `path` that the components of `base` take
/// up, one after the other from the front, where `path` has the same
/// components there; both texts start where a component may start.
pub open spec fn after_prefix(path: Seq<char>, base: Seq<char>) -> Option<int>
    decreases base.len(),
{
    let base_rest = base.skip(lead_len(base));
    let path_rest = path.skip(lead_len(path));
    let base_len = index_of(base_rest, '/');
    let path_len = index_of(path_rest, '/');
    if base_rest.len() == 0 || lead_len(base) < 0 || lead_len(base) > base.len() {
        Some(0)
    } else if 0 < base_len <= base_rest.len() && path_rest.len() > 0 && path_rest.take(path_len)
        == base_rest.take(base_len) {
        match after_prefix(path_rest.skip(path_len), base_rest.skip(base_len)) {
            Some(more) => Some(lead_len(path) + path_len + more),
            None => None,
        }
    } else {
        None
    }
}

/// Whether `base` has a component.
pub open spec fn has_components(base: Seq<char>) -> bool {
    fixed_len(base) > 0 || lead_len(base) < base.len()
}

/// `path` without the components of `base` in front of it, where it has
/// them there: what is left starts with the next component and ends with
/// the last, and is empty where there is none.
pub open spec fn without_prefix(path: Seq<char>, base: Seq<char>) -> Option<Seq<char>> {
    let fixed = fixed_len(base);
    if !has_components(base) {
        Some(path.take(body_len(path, fixed_len(path))))
    } else if fixed != fixed_len(path) || (fixed == 1 && base[0] != path[0]) {
        None
    } else {
        match after_prefix(path.skip(fixed), base.skip(fixed)) {
            Some(taken) => {
                let rest = path.skip(fixed + taken);
                let tail = rest.skip(lead_len(rest));
                Some(tail.take(body_len(tail, 0)))
            },
            None => None,
        }
    }
}

/// What `lead_len` passes over lies within the text and ends before a
/// character that is no separator.
pub proof fn lemma_lead_len(text: Seq<char>)
    ensures
        0 <= lead_len(text) <= text.len(),
        lead_len(text) < text.len() ==> text[lead_len(text)] != '/',
    decreases text.len(),
{
    if text.len() > 0 && (text[0] == '/' || (text[0] == '.' && (text.len() == 1 || text[1]
        == '/'))) {
        lemma_lead_len(text.skip(1));
    }
}

/// `body_len` lies between the fixed characters and the length.
pub proof fn lemma_body_len(path: Seq<char>, fixed: int)
    requires
        0 <= fixed,
    ensures
        body_len(path, fixed) <= path.len(),
        fixed <= path.len() ==> fixed <= body_len(path, fixed),
    decreases path.len(),
{
    lemma_last_index_of_bounds(path, '/');
    if path.len() > fixed {
        let start = last_start(path, fixed);
        let component = path.subrange(start, path.len() as int);
        if (component.len() == 0 || component == seq!['.']) && without_last(path, fixed)
            < path.len() {
            lemma_body_len(path.take(without_last(path, fixed)), fixed);
        }
    }
}

/// The view of an optional string.
pub open spec fn text_of(string: Option<String>) -> Option<Seq<char>> {
    match string {
        Some(s) => Some(s@),
        None => None,
    }
}

/// Whether `text[from..to]` is `.`.
fn is_dot(text: &Vec<char>, from: usize, to: usize) -> (r: bool)
    requires
        from <= to <= text.len(),
    ensures
        r == (text@.subrange(from as int, to as int) == seq!['.']),
{
    if to - from == 1 && text[from] == '.' {
        assert(text@.subrange(from as int, to as int) =~= seq!['.']);
        true
    } else {
        proof {
            let dot = seq!['.'];
            assert(dot.len() == 1 && dot[0] == '.');
            if to - from == 1 {
                assert(text@.subrange(from as int, to as int)[0] != '.');
            }
        }
        false
    }
}

/// Whether `text[from..to]` is `..`.
fn is_dot_dot(text: &Vec<char>, from: usize, to: usize) -> (r: bool)
    requires
        from <= to <= text.len(),
    ensures
        r == (text@.subrange(from as int, to as int) == seq!['.', '.']),
{
    if to - from == 2 && text[from] == '.' && text[from + 1] == '.' {
        assert(text@.subrange(from as int, to as int) =~= seq!['.', '.']);
        true
    } else {
        proof {
            let piece = text@.subrange(from as int, to as int);
            let dots = seq!['.', '.'];
            assert(dots.len() == 2 && dots[0] == '.' && dots[1] == '.');
            if to - from == 2 {
                assert(piece[0] != '.' || piece[1] != '.');
            }
        }
        false
    }
}

/// The index of the last `/` in `text[..end]`, plus one; 0 where there is
/// none.
fn after_last_separator(text: &Vec<char>, end: usize) -> (start: usize)
    requires
        end <= text.len(),
    ensures
        start == last_index_of(text@.take(end as int), '/') + 1,
        start <= end,
{
    let mut i: usize = end;
    assert(text@.take(end as int).take(i as int) =~= text@.take(end as int));
    while i > 0 && text[i - 1] != '/'
        invariant
            i <= end <= text.len(),
            last_index_of(text@.take(end as int), '/') == last_index_of(
                text@.take(end as int).take(i as int),
                '/',
            ),
        decreases i,
    {
        assert(text@.take(end as int).take(i as int).drop_last() =~= text@.take(end as int).take(
            i - 1,
        ));
        i -= 1;
    }
    proof {
        assert(text@.take(end as int).take(i as int) =~= text@.take(i as int));
        if i > 0 {
            assert(text@.take(i as int).last() == '/');
        }
    }
    i
}

/// The bounds of the file name in `path`.
fn file_name_bounds(path: &Vec<char>) -> (bounds: Option<(usize, usize)>)
    ensures
        match bounds {
            Some((from, to)) => from <= to <= path.len() && file_name(path@) == Some(
                path@.subrange(from as int, to as int),
            ),
            None => file_name(path@) is None,
        },
{
    let mut end: usize = path.len();
    assert(path@.take(end as int) =~= path@);
    while end > 0
        invariant
            end <= path.len(),
            file_name(path@) == file_name(path@.take(end as int)),
        decreases end,
    {
        let ghost here = path@.take(end as int);
        if path[end - 1] == '/' {
            assert(here.drop_last() =~= path@.take(end - 1));
            end -= 1;
        } else {
            let start = after_last_separator(path, end);
            assert(here.subrange(start as int, end as int) =~= path@.subrange(
                start as int,
                end as int,
            ));
            if is_dot(path, start, end) {
                if start == 0 {
                    return None;
                }
                assert(here.take(start as int) =~= path@.take(start as int));
                end = start;
            } else if is_dot_dot(path, start, end) {
                return None;
            } else {
                return Some((start, end));
            }
        }
    }
    None
}

/// The index in `path[from..to]`, counted in `path`, at which the stem of
/// that file name ends.
fn stem_end(path: &Vec<char>, from: usize, to: usize) -> (end: usize)
    requires
        from <= to <= path.len(),
    ensures
        from <= end <= to,
        end - from == stem_len(path@.subrange(from as int, to as int)),
{
    let ghost name = path@.subrange(from as int, to as int);
    let mut i: usize = to;
    assert(name.take(i - from) =~= name);
    while i > from && path[i - 1] != '.'
        invariant
            from <= i <= to <= path.len(),
            name == path@.subrange(from as int, to as int),
            last_index_of(name, '.') == last_index_of(name.take(i - from), '.'),
        decreases i,
    {
        assert(name.take(i - from).drop_last() =~= name.take(i - from - 1));
        i -= 1;
    }
    if i - from <= 1 {
        proof {
            if i - from == 1 {
                assert(name.take(1).last() == '.');
            }
        }
        to
    } else {
        assert(name.take(i - from).last() == '.');
        i - 1
    }
}

/// The file name of `path`.
pub fn file_name_of(path: &str) -> (name: Option<String>)
    ensures
        text_of(name) == file_name(path@),
{
    let chars = crate::text::to_chars(path);
    match file_name_bounds(&chars) {
        Some((from, to)) => Some(string_of(&chars, from, to)),
        None => None,
    }
}

/// The stem of the file name of `path`.
pub fn file_stem_of(path: &str) -> (stem: Option<String>)
    ensures
        text_of(stem) == file_stem(path@),
{
    let chars = crate::text::to_chars(path);
    match file_name_bounds(&chars) {
        Some((from, to)) => {
            let end = stem_end(&chars, from, to);
            assert(chars@.subrange(from as int, to as int).take(end - from) =~= chars@.subrange(
                from as int,
                end as int,
            ));
            Some(string_of(&chars, from, end))
        },
        None => None,
    }
}

/// The extension of the file name of `path`.
pub fn extension_of(path: &str) -> (extension: Option<String>)
    ensures
        text_of(extension) == crate::path::extension(path@),
{
    let chars = crate::text::to_chars(path);
    match file_name_bounds(&chars) {
        Some((from, to)) => {
            let end = stem_end(&chars, from, to);
            if end < to {
                assert(chars@.subrange(from as int, to as int).skip(end - from + 1)
                    =~= chars@.subrange(end + 1, to as int));
                Some(string_of(&chars, end + 1, to))
            } else {
                None
            }
        },
        None => None,
    }
}

/// Where the separators and components `.` from `text[at]` on end.
fn skip_lead(text: &Vec<char>, at: usize) -> (end: usize)
    requires
        at <= text.len(),
    ensures
        end == at + lead_len(text@.skip(at as int)),
        at <= end <= text.len(),
{
    let mut i: usize = at;
    while i < text.len() && (text[i] == '/' || (text[i] == '.' && (text.len() - i == 1 || text[i
        + 1] == '/')))
        invariant
            at <= i <= text.len(),
            at + lead_len(text@.skip(at as int)) == i + lead_len(text@.skip(i as int)),
        decreases text.len() - i,
    {
        assert(text@.skip(i as int).skip(1) =~= text@.skip(i + 1));
        i += 1;
    }
    proof {
        lemma_lead_len(text@.skip(i as int));
    }
    i
}

/// The number of characters of `path[from..]` that the components of
/// `base[start..]` take up.
fn match_prefix(path: &Vec<char>, from: usize, base: &Vec<char>, start: usize) -> (taken: Option<
    usize,
>)
    requires
        from <= path.len(),
        start <= base.len(),
    ensures
        match taken {
            Some(n) => after_prefix(path@.skip(from as int), base@.skip(start as int)) == Some(
                n as int,
            ) && from + n <= path.len(),
            None => after_prefix(path@.skip(from as int), base@.skip(start as int)) is None,
        },
{
    let mut i: usize = from;
    let mut j: usize = start;
    loop
        invariant
            from <= i <= path.len(),
            start <= j <= base.len(),
            after_prefix(path@.skip(from as int), base@.skip(start as int)) == (match after_prefix(
                path@.skip(i as int),
                base@.skip(j as int),
            ) {
                Some(more) => Some(i - from + more),
                None => None::<int>,
            }),
        decreases base.len() - j,
    {
        let ghost path_here = path@.skip(i as int);
        let ghost base_here = base@.skip(j as int);
        let base_at = skip_lead(base, j);
        let ghost base_rest = base_here.skip(lead_len(base_here));
        assert(base_rest =~= base@.skip(base_at as int));
        if base_at == base.len() {
            return Some(i - from);
        }
        let base_end = find_char(base, base_at, '/');
        let path_at = skip_lead(path, i);
        let ghost path_rest = path_here.skip(lead_len(path_here));
        assert(path_rest =~= path@.skip(path_at as int));
        proof {
            lemma_lead_len(base_here);
            lemma_index_of_bounds(base_rest, '/');
            lemma_index_of_bounds(path_rest, '/');
            assert(base_rest[0] == base@[base_at as int]);
        }
        if path_at == path.len() {
            return None;
        }
        let path_end = find_char(path, path_at, '/');
        let same = path_end - path_at == base_end - base_at && same_range(
            path,
            path_at,
            base,
            base_at,
            base_end - base_at,
        );
        proof {
            let path_len = index_of(path_rest, '/');
            let base_len = index_of(base_rest, '/');
            assert(path_rest.take(path_len) =~= path@.subrange(path_at as int, path_end as int));
            assert(base_rest.take(base_len) =~= base@.subrange(base_at as int, base_end as int));
            assert(path_rest.skip(path_len) =~= path@.skip(path_end as int));
            assert(base_rest.skip(base_len) =~= base@.skip(base_end as int));
        }
        if !same {
            return None;
        }
        i = path_end;
        j = base_end;
    }
}

/// Whether `a[from..from + len]` and `b[start..start + len]` hold the same
/// characters.
fn same_range(a: &Vec<char>, from: usize, b: &Vec<char>, start: usize, len: usize) -> (same: bool)
    requires
        from + len <= a.len(),
        start + len <= b.len(),
    ensures
        same == (a@.subrange(from as int, from + len) == b@.subrange(start as int, start + len)),
{
    let mut piece: Vec<char> = Vec::new();
    push_range(&mut piece, b, start, start + len);
    let same = occurs_at_exec(a, from, &piece);
    same
}

/// `path` without the components of `base` in front of it.
pub fn strip_prefix_of(path: &str, base: &str) -> (rest: Option<String>)
    ensures
        text_of(rest) == without_prefix(path@, base@),
{
    let p = crate::text::to_chars(path);
    let b = crate::text::to_chars(base);
    let fixed_p = fixed_of(&p);
    let fixed_b = fixed_of(&b);
    assert(b@.skip(0) =~= b@);
    if fixed_b == 0 && skip_lead(&b, 0) == b.len() {
        assert(p@.take(p.len() as int) =~= p@);
        let end = body_end(&p, p.len(), fixed_p);
        assert(p@.take(end as int) =~= p@.subrange(0, end as int));
        return Some(string_of(&p, 0, end));
    }
    if fixed_b != fixed_p || (fixed_b == 1 && b[0] != p[0]) {
        return None;
    }
    match match_prefix(&p, fixed_b, &b, fixed_b) {
        Some(taken) => {
            let start = skip_lead(&p, fixed_b + taken);
            let mut tail: Vec<char> = Vec::new();
            push_range(&mut tail, &p, start, p.len());
            proof {
                let rest = p@.skip(fixed_b + taken);
                assert(rest.skip(lead_len(rest)) =~= p@.skip(start as int));
                assert(tail@ =~= p@.skip(start as int));
                assert(tail@.take(tail.len() as int) =~= tail@);
            }
            let end = body_end(&tail, tail.len(), 0);
            assert(tail@.take(end as int) =~= tail@.subrange(0, end as int));
            Some(string_of(&tail, 0, end))
        },
        None => None,
    }
}

/// `fixed_len` of `path`.
fn fixed_of(path: &Vec<char>) -> (fixed: usize)
    ensures
        fixed == fixed_len(path@),
        fixed <= path.len(),
        fixed <= 1,
{
    let n = path.len();
    if n > 0 && path[0] == '/' {
        1
    } else if n > 0 && path[0] == '.' && (n == 1 || path[1] == '/') {
        1
    } else {
        0
    }
}

/// `body_len` of `path[..end]`.
fn body_end(path: &Vec<char>, end: usize, fixed: usize) -> (len: usize)
    requires
        end <= path.len(),
    ensures
        len == body_len(path@.take(end as int), fixed as int),
        len <= end,
{
    let mut e: usize = end;
    assert(path@.take(end as int).take(e as int) =~= path@.take(end as int));
    while e > fixed
        invariant
            e <= end <= path.len(),
            body_len(path@.take(end as int), fixed as int) == body_len(
                path@.take(e as int),
                fixed as int,
            ),
        decreases e,
    {
        let ghost here = path@.take(e as int);
        let after = after_last_separator(path, e);
        let (start, cut) = if after > fixed {
            (after, after - 1)
        } else {
            (fixed, fixed)
        };
        assert(here.subrange(start as int, e as int) =~= path@.subrange(start as int, e as int));
        if (start == e || is_dot(path, start, e)) && cut < e {
            assert(here.take(cut as int) =~= path@.take(cut as int));
            e = cut;
        } else {
            return e;
        }
    }
    e
}

/// `path` without its last component.
pub fn parent_of(path: &str) -> (parent: Option<String>)
    ensures
        text_of(parent) == crate::path::parent(path@),
{
    let chars = crate::text::to_chars(path);
    let n = chars.len();
    let fixed = fixed_of(&chars);
    assert(chars@.take(n as int) =~= chars@);
    let whole = body_end(&chars, n, fixed);
    if whole <= fixed {
        if fixed == 1 && chars[0] == '.' {
            Some(String::new())
        } else {
            None
        }
    } else {
        let after = after_last_separator(&chars, whole);
        let cut = if after > fixed {
            after - 1
        } else {
            fixed
        };
        let rest = body_end(&chars, cut, fixed);
        proof {
            let w = chars@.take(whole as int);
            assert(w.take(cut as int) =~= chars@.take(cut as int));
            assert(chars@.take(cut as int).take(rest as int) =~= chars@.subrange(0, rest as int));
        }
        Some(string_of(&chars, 0, rest))
    }
}

} // verus!
