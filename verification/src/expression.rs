//! The expressions that are handed on for evaluation: sums, differences,
//! products and quotients of names and whole numbers, with round brackets,
//! that stay within the numbers of the machine.

use vstd::prelude::*;

use crate::text::{char_is_word, is_word_char, to_chars};

verus! {

/// The greatest number that an admitted expression can come to.
pub const LIMIT: u64 = 9223372036854775807;

/// The greatest length of an admitted expression.
pub const LENGTH: usize = 255;

/// A character of a name or a number.
pub open spec fn is_atom_char(c: char) -> bool {
    is_word_char(c) || c == '$'
}

/// A decimal digit.
pub open spec fn is_digit(c: char) -> bool {
    '0' <= c && c <= '9'
}

/// One of `+`, `-`, `*`, `/`.
pub open spec fn is_operator(c: char) -> bool {
    c == '+' || c == '-' || c == '*' || c == '/'
}

/// The number of characters of names and numbers that `text` starts with.
pub open spec fn atom_run(text: Seq<char>) -> int
    decreases text.len(),
{
    if text.len() > 0 && is_atom_char(text[0]) {
        1 + atom_run(text.skip(1))
    } else {
        0
    }
}

/// Whether `text` holds digits only.
pub open spec fn all_digits(text: Seq<char>) -> bool {
    forall|i: int| 0 <= i < text.len() ==> is_digit(#[trigger] text[i])
}

/// The number that the digits of `digits` write.
pub open spec fn number_of(digits: Seq<char>) -> int
    decreases digits.len(),
{
    if digits.len() == 0 {
        0
    } else {
        number_of(digits.drop_last()) * 10 + ((digits.last() as u32) as int - 48)
    }
}

/// What a name or a number weighs in the bound of an expression: one more
/// than the number, one more than the index for `$i`, and 1 for any other
/// name. What starts with a digit and is no number weighs 0 and is not
/// admitted.
pub open spec fn atom_factor(atom: Seq<char>, index: usize) -> int {
    if atom == seq!['$', 'i'] {
        index + 1
    } else if atom.len() > 0 && is_digit(atom[0]) {
        if all_digits(atom) {
            number_of(atom) + 1
        } else {
            0
        }
    } else {
        1
    }
}

/// Whether the rest of an expression is well made. `expect` says that a
/// term has to come next, `depth` how many brackets are open, and `product`
/// is the product of the weights so far. Blanks are passed over; a name or
/// number and `(` stand only where a term has to come; `)` and an operator
/// only after a term; every `)` closes a `(`; and at the end a term has come
/// and no bracket is open. Nothing but these characters is admitted, and
/// the product of the weights stays within `LIMIT`.
pub open spec fn well_made(text: Seq<char>, index: usize, expect: bool, depth: int, product: int)
    -> bool
    decreases text.len(),
{
    if text.len() == 0 {
        !expect && depth == 0
    } else if text[0] == ' ' {
        well_made(text.skip(1), index, expect, depth, product)
    } else if is_atom_char(text[0]) {
        let n = atom_run(text);
        let factor = atom_factor(text.take(n), index);
        if expect && 0 < n <= text.len() && factor > 0 && product * factor <= LIMIT {
            well_made(text.skip(n), index, false, depth, product * factor)
        } else {
            false
        }
    } else if text[0] == '(' {
        expect && well_made(text.skip(1), index, true, depth + 1, product)
    } else if text[0] == ')' {
        !expect && depth > 0 && well_made(text.skip(1), index, false, depth - 1, product)
    } else if is_operator(text[0]) {
        !expect && well_made(text.skip(1), index, true, depth, product)
    } else {
        false
    }
}

/// Whether `expression` is handed on for evaluation where `$i` is `index`:
/// it is no longer than `LENGTH` and well made.
pub open spec fn evaluable(expression: Seq<char>, index: usize) -> bool {
    expression.len() <= LENGTH && well_made(expression, index, true, 0, 1)
}

/// A run of such characters lies within the text.
pub proof fn lemma_atom_run(text: Seq<char>)
    ensures
        0 <= atom_run(text) <= text.len(),
        text.len() > 0 && is_atom_char(text[0]) ==> atom_run(text) > 0,
    decreases text.len(),
{
    if text.len() > 0 && is_atom_char(text[0]) {
        lemma_atom_run(text.skip(1));
    }
}

/// More digits write no smaller number.
pub proof fn lemma_number_grows(digits: Seq<char>, count: int)
    requires
        all_digits(digits),
        0 <= count <= digits.len(),
    ensures
        0 <= number_of(digits.take(count)) <= number_of(digits),
    decreases digits.len() - count,
{
    if count < digits.len() {
        lemma_number_grows(digits, count + 1);
        let longer = digits.take(count + 1);
        assert(longer.drop_last() =~= digits.take(count));
        assert(is_digit(digits[count]));
        assert(longer.last() == digits[count]);
        lemma_number_positive(digits.take(count));
    } else {
        assert(digits.take(count) =~= digits);
        lemma_number_positive(digits);
    }
}

/// Digits write no negative number.
pub proof fn lemma_number_positive(digits: Seq<char>)
    requires
        all_digits(digits),
    ensures
        0 <= number_of(digits),
    decreases digits.len(),
{
    if digits.len() > 0 {
        assert(is_digit(digits.last()));
        assert forall|i: int| 0 <= i < digits.drop_last().len() implies is_digit(
            #[trigger] digits.drop_last()[i],
        ) by {
            assert(digits.drop_last()[i] == digits[i]);
        }
        lemma_number_positive(digits.drop_last());
    }
}

/// Whether `c` is a character of a name or a number.
fn char_is_atom(c: char) -> (r: bool)
    ensures
        r == is_atom_char(c),
{
    char_is_word(c) || c == '$'
}

/// Where the name or number from `text[at]` on ends.
fn atom_end(text: &Vec<char>, at: usize) -> (end: usize)
    requires
        at <= text.len(),
    ensures
        end == at + atom_run(text@.skip(at as int)),
        at <= end <= text.len(),
{
    let mut j: usize = at;
    while j < text.len() && char_is_atom(text[j])
        invariant
            at <= j <= text.len(),
            atom_run(text@.skip(at as int)) == (j - at) + atom_run(text@.skip(j as int)),
        decreases text.len() - j,
    {
        assert(text@.skip(j as int).skip(1) =~= text@.skip(j + 1));
        j += 1;
    }
    j
}

/// The weight of the name or number `text[from..to]`, where it is admitted
/// and within `LIMIT`.
#[verifier::loop_isolation(false)]
fn factor_of(text: &Vec<char>, from: usize, to: usize, index: usize) -> (factor: Option<u64>)
    requires
        from < to <= text.len(),
    ensures
        match factor {
            Some(f) => 0 < f <= LIMIT && f == atom_factor(
                text@.subrange(from as int, to as int),
                index,
            ),
            None => atom_factor(text@.subrange(from as int, to as int), index) <= 0 || atom_factor(
                text@.subrange(from as int, to as int),
                index,
            ) > LIMIT,
        },
{
    let ghost atom = text@.subrange(from as int, to as int);
    if to - from == 2 && text[from] == '$' && text[from + 1] == 'i' {
        assert(atom =~= seq!['$', 'i']);
        if index as u64 >= LIMIT {
            return None;
        }
        return Some(index as u64 + 1);
    }
    proof {
        let name = seq!['$', 'i'];
        assert(name.len() == 2 && name[0] == '$' && name[1] == 'i');
        if to - from == 2 {
            assert(atom[0] != '$' || atom[1] != 'i');
        }
        assert(atom != name);
        assert(atom[0] == text@[from as int]);
    }
    if !(text[from] >= '0' && text[from] <= '9') {
        return Some(1);
    }
    let mut value: u64 = 0;
    let mut j: usize = from;
    assert(atom.take(0) =~= Seq::<char>::empty());
    while j < to
        invariant
            from <= j <= to <= text.len(),
            atom == text@.subrange(from as int, to as int),
            all_digits(atom.take(j - from)),
            value == number_of(atom.take(j - from)),
            value < LIMIT,
        decreases to - j,
    {
        let c = text[j];
        let ghost longer = atom.take(j - from + 1);
        proof {
            assert(longer.drop_last() =~= atom.take(j - from));
            assert(longer.last() == c);
        }
        if !(c >= '0' && c <= '9') {
            assert(!is_digit(atom[j - from]));
            return None;
        }
        let digit = (c as u32 - 48) as u64;
        assert forall|i: int| 0 <= i < longer.len() implies is_digit(#[trigger] longer[i]) by {
            if i < j - from {
                assert(longer[i] == atom.take(j - from)[i]);
            }
        }
        if value > (LIMIT - 1 - digit) / 10 {
            proof {
                assert(number_of(longer) >= LIMIT);
                if all_digits(atom) {
                    lemma_number_grows(atom, j - from + 1);
                }
            }
            return None;
        }
        value = value * 10 + digit;
        j += 1;
    }
    assert(atom.take(to - from) =~= atom);
    Some(value + 1)
}

/// Whether `expression` is handed on for evaluation where `$i` is `index`.
#[verifier::loop_isolation(false)]
pub fn can_evaluate(expression: &str, index: usize) -> (ok: bool)
    ensures
        ok == evaluable(expression@, index),
{
    let text = to_chars(expression);
    if text.len() > LENGTH {
        return false;
    }
    let mut expect = true;
    let mut depth: usize = 0;
    let mut product: u64 = 1;
    let mut i: usize = 0;
    assert(text@.skip(0) =~= text@);
    while i < text.len()
        invariant
            i <= text.len(),
            depth <= i,
            1 <= product <= LIMIT,
            well_made(text@.skip(i as int), index, expect, depth as int, product as int)
                == well_made(text@, index, true, 0, 1),
        decreases text.len() - i,
    {
        let ghost rest = text@.skip(i as int);
        let c = text[i];
        assert(rest[0] == c);
        if c == ' ' {
            assert(rest.skip(1) =~= text@.skip(i + 1));
            i += 1;
        } else if char_is_atom(c) {
            let end = atom_end(&text, i);
            proof {
                lemma_atom_run(rest);
                assert(rest.take(end - i) =~= text@.subrange(i as int, end as int));
                assert(rest.skip(end - i) =~= text@.skip(end as int));
            }
            if !expect {
                return false;
            }
            match factor_of(&text, i, end, index) {
                Some(factor) => {
                    let fits = factor <= LIMIT / product;
                    proof {
                        let f = factor as int;
                        let p = product as int;
                        let m = LIMIT as int;
                        assert((f <= m / p) == (p * f <= m)) by (nonlinear_arith)
                            requires
                                0 < p,
                                0 < f,
                                0 <= m,
                        ;
                        assert(p * f >= 1) by (nonlinear_arith)
                            requires
                                0 < p,
                                0 < f,
                        ;
                    }
                    if !fits {
                        return false;
                    }
                    product = product * factor;
                    expect = false;
                    i = end;
                },
                None => {
                    proof {
                        let f = atom_factor(text@.subrange(i as int, end as int), index);
                        let p = product as int;
                        if f > LIMIT {
                            assert(p * f > LIMIT) by (nonlinear_arith)
                                requires
                                    1 <= p,
                                    f > LIMIT,
                            ;
                        }
                    }
                    return false;
                },
            }
        } else if c == '(' {
            if !expect {
                return false;
            }
            assert(rest.skip(1) =~= text@.skip(i + 1));
            depth += 1;
            i += 1;
        } else if c == ')' {
            if expect || depth == 0 {
                return false;
            }
            assert(rest.skip(1) =~= text@.skip(i + 1));
            depth -= 1;
            i += 1;
        } else if c == '+' || c == '-' || c == '*' || c == '/' {
            if expect {
                return false;
            }
            assert(rest.skip(1) =~= text@.skip(i + 1));
            expect = true;
            i += 1;
        } else {
            return false;
        }
    }
    assert(text@.skip(text.len() as int) =~= Seq::<char>::empty());
    !expect && depth == 0
}

} // verus!
