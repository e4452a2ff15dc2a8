//! The table of key/value mappings that placeholders of the form `{key}` are
//! replaced from.

use vstd::prelude::*;

use crate::dict::{lemma_position_of, position_of, Dict};
use crate::text::{from_chars, replace, replace_chars, to_chars};

verus! {

/// `{key}`.
pub open spec fn placeholder(key: Seq<char>) -> Seq<char> {
    seq!['{'] + key + seq!['}']
}

/// `text` without its double quotes.
pub open spec fn unquote(text: Seq<char>) -> Seq<char> {
    replace(text, seq!['"'], Seq::empty())
}

/// `text` after the placeholder of each key, in the order of the keys, was
/// replaced by the key's value wherever it then occurred.
pub open spec fn substitute(keys: Seq<Seq<char>>, values: Seq<Seq<char>>, text: Seq<char>) -> Seq<
    char,
>
    decreases keys.len(),
{
    if keys.len() == 0 || values.len() == 0 {
        text
    } else {
        substitute(keys.skip(1), values.skip(1), replace(text, placeholder(keys[0]), values[0]))
    }
}

/// `values` with `substitute` applied to each.
pub open spec fn substitute_each(
    keys: Seq<Seq<char>>,
    values: Seq<Seq<char>>,
    texts: Seq<Seq<char>>,
) -> Seq<Seq<char>> {
    texts.map_values(|t: Seq<char>| substitute(keys, values, t))
}

/// The keys after `key` was given `value`: an old key keeps its place, a new
/// one comes last.
pub open spec fn keys_with(keys: Seq<Seq<char>>, key: Seq<char>) -> Seq<Seq<char>> {
    if keys.contains(key) {
        keys
    } else {
        keys.push(key)
    }
}

/// The values after `key` was given `value`.
pub open spec fn values_with(
    keys: Seq<Seq<char>>,
    values: Seq<Seq<char>>,
    key: Seq<char>,
    value: Seq<char>,
) -> Seq<Seq<char>> {
    if keys.contains(key) {
        values.update(position_of(keys, key), value)
    } else {
        values.push(value)
    }
}

/// The keys and the stored values of a table of mappings.
pub struct Table {
    pub keys: Seq<Seq<char>>,
    pub values: Seq<Seq<char>>,
}

impl Table {
    /// The table without mappings.
    pub open spec fn empty() -> Table {
        Table { keys: Seq::empty(), values: Seq::empty() }
    }

    /// `text` with the table's mappings substituted into it.
    pub open spec fn resolve(self, text: Seq<char>) -> Seq<char> {
        substitute(self.keys, self.values, text)
    }

    /// The table after `val` was inserted under `key`: both lose their
    /// double quotes, and the table's mappings are substituted into `val`.
    pub open spec fn with(self, key: Seq<char>, val: Seq<char>) -> Table {
        Table {
            keys: keys_with(self.keys, unquote(key)),
            values: values_with(
                self.keys,
                self.values,
                unquote(key),
                self.resolve(unquote(val)),
            ),
        }
    }
}

/// An insertion takes no key away and changes the stored value of no other
/// key: what was stored earlier stays as it was resolved then.
pub proof fn lemma_insert_keeps_others(table: Table, key: Seq<char>, val: Seq<char>)
    requires
        table.keys.len() == table.values.len(),
        table.keys.no_duplicates(),
    ensures
        table.with(key, val).keys.len() == table.with(key, val).values.len(),
        table.with(key, val).keys.no_duplicates(),
        forall|i: int|
            0 <= i < table.keys.len() ==> #[trigger] table.with(key, val).keys[i] == table.keys[i],
        forall|i: int|
            0 <= i < table.keys.len() && table.keys[i] != unquote(key) ==> #[trigger] table.with(
                key,
                val,
            ).values[i] == table.values[i],
        table.with(key, val).keys.contains(unquote(key)),
        table.with(key, val).values[position_of(table.with(key, val).keys, unquote(key))]
            == table.resolve(unquote(val)),
{
    let k = unquote(key);
    let after = table.with(key, val);
    lemma_position_of(table.keys, k);
    crate::dict::lemma_position_of_push(table.keys, k, k);
    if table.keys.contains(k) {
        assert(after.keys.contains(k));
    } else {
        assert(after.keys[table.keys.len() as int] == k);
        assert forall|i: int, j: int|
            0 <= i < after.keys.len() && 0 <= j < after.keys.len() && i != j implies after.keys[i]
            != after.keys[j] by {
            if i < table.keys.len() && j < table.keys.len() {
                assert(table.keys[i] != table.keys[j]);
            } else if i < table.keys.len() {
                assert(table.keys.contains(table.keys[i]));
            } else {
                assert(table.keys.contains(table.keys[j]));
            }
        }
    }
}

/// `{key}` as characters.
pub fn placeholder_chars(key: &str) -> (out: Vec<char>)
    ensures
        out@ == placeholder(key@),
{
    let mut out: Vec<char> = Vec::new();
    out.push('{');
    crate::text::push_str(&mut out, key);
    out.push('}');
    assert(out@ =~= placeholder(key@));
    out
}

/// `text` without its double quotes.
pub fn unquote_chars(text: &str) -> (out: Vec<char>)
    ensures
        out@ == unquote(text@),
{
    let chars = to_chars(text);
    let mut quote: Vec<char> = Vec::new();
    quote.push('"');
    let nothing: Vec<char> = Vec::new();
    assert(quote@ =~= seq!['"']);
    assert(nothing@ =~= Seq::<char>::empty());
    replace_chars(&chars, &quote, &nothing)
}

/// A table of mappings. Each value was substituted against the table as it
/// stood when the value came in.
#[derive(Debug)]
pub struct Mappings {
    mappings: Dict<String>,
}

impl Mappings {
    /// The keys are pairwise different.
    pub closed spec fn wf(self) -> bool {
        self.mappings.wf()
    }

    /// The keys, in the order in which they first came in.
    pub closed spec fn keys(self) -> Seq<Seq<char>> {
        self.mappings.keys()
    }

    /// The stored values, each at the index of its key.
    pub closed spec fn values(self) -> Seq<Seq<char>> {
        self.mappings.texts()
    }

    /// The keys and the stored values.
    pub open spec fn table(self) -> Table {
        Table { keys: self.keys(), values: self.values() }
    }

    /// The stored value of `key`, if it has one.
    pub open spec fn lookup(self, key: Seq<char>) -> Option<Seq<char>> {
        if self.keys().contains(key) {
            Some(self.values()[position_of(self.keys(), key)])
        } else {
            None
        }
    }

    /// In a well-formed table no key stands twice, and each key has a value.
    pub proof fn lemma_wf(self)
        requires
            self.wf(),
        ensures
            self.keys().len() == self.values().len(),
            self.keys().no_duplicates(),
    {
        self.mappings.lemma_wf();
    }

    /// The empty table.
    pub fn new() -> (m: Mappings)
        ensures
            m.wf(),
            m.keys() == Seq::<Seq<char>>::empty(),
            m.values() == Seq::<Seq<char>>::empty(),
    {
        let m = Mappings { mappings: Dict::new() };
        assert(m.values() =~= Seq::<Seq<char>>::empty());
        m
    }

    /// `text` with the table's mappings substituted into it.
    fn apply(&self, text: Vec<char>) -> (out: Vec<char>)
        ensures
            out@ == substitute(self.keys(), self.values(), text@),
    {
        let mut current = text;
        let n = self.mappings.len();
        let mut i: usize = 0;
        assert(self.keys().skip(0) =~= self.keys());
        assert(self.values().skip(0) =~= self.values());
        while i < n
            invariant
                i <= n,
                n == self.keys().len(),
                n == self.values().len(),
                substitute(self.keys().skip(i as int), self.values().skip(i as int), current@)
                    == substitute(self.keys(), self.values(), text@),
            decreases n - i,
        {
            let pattern = placeholder_chars(self.mappings.key(i).as_str());
            let with = to_chars(self.mappings.value(i).as_str());
            assert(self.keys().skip(i as int).skip(1) =~= self.keys().skip(i + 1));
            assert(self.values().skip(i as int).skip(1) =~= self.values().skip(i + 1));
            current = replace_chars(&current, &pattern, &with);
            i += 1;
        }
        current
    }

    /// Stores, under `key` without its double quotes, `val` without its
    /// double quotes and with the mappings that are there substituted into
    /// it. Returns the table.
    pub fn insert(&mut self, key: &str, val: &str) -> (table: &Mappings)
        requires
            old(self).wf(),
        ensures
            final(self).wf(),
            final(self).table() == old(self).table().with(key@, val@),
            final(self).keys() == keys_with(old(self).keys(), unquote(key@)),
            final(self).values() == values_with(
                old(self).keys(),
                old(self).values(),
                unquote(key@),
                substitute(old(self).keys(), old(self).values(), unquote(val@)),
            ),
            *table == *final(self),
    {
        let key = from_chars(&unquote_chars(key));
        let val = self.replace_all(val);
        proof {
            self.mappings.lemma_wf();
        }
        proof {
            lemma_position_of(self.keys(), key@);
        }
        self.mappings.insert(key, val);
        proof {
            let at = position_of(old(self).keys(), key@);
            if old(self).keys().contains(key@) {
                assert(self.values() =~= old(self).values().update(at, val@));
            } else {
                assert(self.values() =~= old(self).values().push(val@));
            }
        }
        self
    }

    /// The stored value of `key`.
    pub fn get(&self, key: &str) -> (value: Option<&String>)
        ensures
            match value {
                Some(v) => self.lookup(key@) == Some(v@),
                None => self.lookup(key@) is None,
            },
    {
        let found = self.mappings.get(key);
        proof {
            lemma_position_of(self.keys(), key@);
            self.mappings.lemma_len();
        }
        found
    }

    /// `val` without its double quotes and with every mapping substituted
    /// into it. A placeholder of no key stays as it is.
    pub fn replace_all(&self, val: &str) -> (out: String)
        ensures
            out@ == substitute(self.keys(), self.values(), unquote(val@)),
    {
        let text = unquote_chars(val);
        let out = self.apply(text);
        from_chars(&out)
    }

    /// Substitutes every mapping into `val`.
    pub fn replace(&self, val: &mut String)
        ensures
            final(val)@ == substitute(self.keys(), self.values(), old(val)@),
    {
        let out = self.apply(to_chars(val.as_str()));
        *val = from_chars(&out);
    }

    /// Substitutes every mapping into each of `values`.
    pub fn replace_vec(&self, values: &mut Vec<String>)
        ensures
            crate::text::views(final(values)@) == substitute_each(
                self.keys(),
                self.values(),
                crate::text::views(old(values)@),
            ),
    {
        let n = values.len();
        let mut i: usize = 0;
        while i < n
            invariant
                i <= n,
                n == values.len(),
                n == old(values).len(),
                forall|j: int|
                    0 <= j < i ==> (#[trigger] values@[j])@ == substitute(
                        self.keys(),
                        self.values(),
                        old(values)@[j]@,
                    ),
                forall|j: int| i <= j < n ==> #[trigger] values@[j] == old(values)@[j],
            decreases n - i,
        {
            let out = self.apply(to_chars(values[i].as_str()));
            values.set(i, from_chars(&out));
            i += 1;
        }
        assert(crate::text::views(values@) =~= substitute_each(
            self.keys(),
            self.values(),
            crate::text::views(old(values)@),
        ));
    }

    /// Substitutes every mapping into each value of `values`.
    pub fn replace_map(&self, values: &mut Dict<String>)
        requires
            old(values).wf(),
        ensures
            final(values).wf(),
            final(values).keys() == old(values).keys(),
            final(values).texts() == substitute_each(
                self.keys(),
                self.values(),
                old(values).texts(),
            ),
    {
        let n = values.len();
        let mut i: usize = 0;
        while i < n
            invariant
                i <= n,
                values.wf(),
                values.keys() == old(values).keys(),
                n == values.values().len(),
                n == old(values).values().len(),
                n == values.keys().len(),
                forall|j: int|
                    0 <= j < i ==> (#[trigger] values.values()[j])@ == substitute(
                        self.keys(),
                        self.values(),
                        old(values).values()[j]@,
                    ),
                forall|j: int|
                    i <= j < n ==> #[trigger] values.values()[j] == old(values).values()[j],
            decreases n - i,
        {
            let out = self.apply(to_chars(values.value(i).as_str()));
            values.set_value(i, from_chars(&out));
            i += 1;
        }
        assert(values.texts() =~= substitute_each(
            self.keys(),
            self.values(),
            old(values).texts(),
        ));
    }
}

} // verus!
