//! A map from strings to values that keeps the order in which its keys
//! first came in.

use vstd::prelude::*;

use crate::text::str_equal;

verus! {

/// The index of the first `key` in `keys`, or the length of `keys`.
pub open spec fn position_of(keys: Seq<Seq<char>>, key: Seq<char>) -> int
    decreases keys.len(),
{
    if keys.len() == 0 || keys[0] == key {
        0
    } else {
        1 + position_of(keys.skip(1), key)
    }
}

/// `position_of` finds the first place of a key that is there, and the
/// length of the list for one that is not.
pub proof fn lemma_position_of(keys: Seq<Seq<char>>, key: Seq<char>)
    ensures
        0 <= position_of(keys, key) <= keys.len(),
        position_of(keys, key) < keys.len() <==> keys.contains(key),
        position_of(keys, key) < keys.len() ==> keys[position_of(keys, key)] == key,
        forall|i: int| 0 <= i < position_of(keys, key) ==> keys[i] != key,
    decreases keys.len(),
{
    if keys.len() == 0 {
    } else if keys[0] == key {
        assert(keys.contains(key));
    } else {
        let rest = keys.skip(1);
        lemma_position_of(rest, key);
        assert forall|i: int| 0 <= i < position_of(keys, key) implies keys[i] != key by {
            if i > 0 {
                assert(keys[i] == rest[i - 1]);
            }
        }
        if rest.contains(key) {
            let j = choose|j: int| 0 <= j < rest.len() && rest[j] == key;
            assert(keys[j + 1] == key);
        }
        if keys.contains(key) {
            let j = choose|j: int| 0 <= j < keys.len() && keys[j] == key;
            assert(rest[j - 1] == key);
        }
    }
}

/// Where `key` stands in a list without repetitions, there and only there
/// `position_of` finds it.
pub proof fn lemma_position_of_at(keys: Seq<Seq<char>>, i: int)
    requires
        0 <= i < keys.len(),
        keys.no_duplicates(),
    ensures
        position_of(keys, keys[i]) == i,
{
    lemma_position_of(keys, keys[i]);
    assert(keys.contains(keys[i]));
}

/// Where `position_of` points after one more key was appended.
pub proof fn lemma_position_of_push(keys: Seq<Seq<char>>, last: Seq<char>, key: Seq<char>)
    ensures
        position_of(keys.push(last), key) == (if keys.contains(key) {
            position_of(keys, key)
        } else if last == key {
            keys.len() as int
        } else {
            keys.len() as int + 1
        }),
    decreases keys.len(),
{
    let longer = keys.push(last);
    if keys.len() == 0 {
        assert(longer.skip(1) =~= Seq::<Seq<char>>::empty());
        assert(position_of(longer.skip(1), key) == 0);
        assert(longer[0] == last);
        assert(!keys.contains(key));
    } else {
        assert(longer.skip(1) =~= keys.skip(1).push(last));
        assert(longer[0] == keys[0]);
        lemma_position_of(keys, key);
        lemma_position_of(keys.skip(1), key);
        if keys[0] != key {
            lemma_position_of_push(keys.skip(1), last, key);
            assert(position_of(longer, key) == 1 + position_of(longer.skip(1), key));
            assert(position_of(keys, key) == 1 + position_of(keys.skip(1), key));
        }
    }
}

/// A map from strings to values of `V`. Its keys are pairwise different and
/// stand in the order in which they were first inserted.
#[derive(Debug)]
pub struct Dict<V> {
    entries: Vec<(String, V)>,
}

impl<V> Dict<V> {
    /// The keys are pairwise different.
    pub closed spec fn wf(self) -> bool {
        forall|i: int, j: int|
            0 <= i < j < self.entries@.len() ==> (#[trigger] self.entries@[i]).0@
                != (#[trigger] self.entries@[j]).0@
    }

    /// The keys, in order.
    pub closed spec fn keys(self) -> Seq<Seq<char>> {
        self.entries@.map_values(|e: (String, V)| e.0@)
    }

    /// The values, each at the index of its key.
    pub closed spec fn values(self) -> Seq<V> {
        self.entries@.map_values(|e: (String, V)| e.1)
    }

    /// Whether `key` is in the map.
    pub open spec fn has(self, key: Seq<char>) -> bool {
        self.keys().contains(key)
    }

    /// The value under `key`, if there is one.
    pub open spec fn lookup(self, key: Seq<char>) -> Option<V> {
        if self.has(key) {
            Some(self.values()[position_of(self.keys(), key)])
        } else {
            None
        }
    }

    /// The map without its order.
    pub open spec fn as_map(self) -> Map<Seq<char>, V> {
        Map::new(|k: Seq<char>| self.has(k), |k: Seq<char>| self.lookup(k)->0)
    }

    /// There is one value for each key.
    pub proof fn lemma_len(self)
        ensures
            self.keys().len() == self.values().len(),
    {
    }

    /// In a well-formed map no key stands twice, and there is one value for
    /// each key.
    pub proof fn lemma_wf(self)
        requires
            self.wf(),
        ensures
            self.keys().len() == self.values().len(),
            self.keys().no_duplicates(),
    {
        assert forall|i: int, j: int|
            0 <= i < self.keys().len() && 0 <= j < self.keys().len() && i != j implies self.keys()[i]
            != self.keys()[j] by {
            if i < j {
                assert(self.entries@[i].0@ != self.entries@[j].0@);
            } else {
                assert(self.entries@[j].0@ != self.entries@[i].0@);
            }
        }
    }

    /// The empty map.
    pub fn new() -> (d: Self)
        ensures
            d.wf(),
            d.keys() == Seq::<Seq<char>>::empty(),
            d.values() == Seq::<V>::empty(),
            d.as_map() == Map::<Seq<char>, V>::empty(),
    {
        let d = Dict { entries: Vec::new() };
        assert(d.keys() =~= Seq::<Seq<char>>::empty());
        assert(d.values() =~= Seq::<V>::empty());
        assert(d.as_map() =~= Map::<Seq<char>, V>::empty());
        d
    }

    /// The number of keys.
    pub fn len(&self) -> (n: usize)
        ensures
            n == self.keys().len(),
            n == self.values().len(),
    {
        self.entries.len()
    }

    /// The key at index `i`.
    pub fn key(&self, i: usize) -> (k: &String)
        requires
            i < self.keys().len(),
        ensures
            k@ == self.keys()[i as int],
    {
        &self.entries[i].0
    }

    /// The value at index `i`.
    pub fn value(&self, i: usize) -> (v: &V)
        requires
            i < self.keys().len(),
        ensures
            *v == self.values()[i as int],
    {
        &self.entries[i].1
    }

    /// The index of `key`, if it is in the map.
    pub fn position(&self, key: &str) -> (at: Option<usize>)
        ensures
            match at {
                Some(i) => self.has(key@) && i == position_of(self.keys(), key@),
                None => !self.has(key@),
            },
    {
        let mut i: usize = 0;
        while i < self.entries.len()
            invariant
                i <= self.entries.len(),
                self.keys().len() == self.entries.len(),
                forall|j: int| 0 <= j < i ==> self.keys()[j] != key@,
            decreases self.entries.len() - i,
        {
            if str_equal(self.entries[i].0.as_str(), key) {
                proof {
                    assert(self.keys()[i as int] == key@);
                    lemma_position_of(self.keys(), key@);
                }
                return Some(i);
            }
            i += 1;
        }
        None
    }

    /// The value under `key`, if there is one.
    pub fn get(&self, key: &str) -> (v: Option<&V>)
        ensures
            match v {
                Some(found) => self.lookup(key@) == Some(*found),
                None => self.lookup(key@) is None,
            },
    {
        match self.position(key) {
            Some(i) => {
                proof {
                    lemma_position_of(self.keys(), key@);
                }
                Some(&self.entries[i].1)
            },
            None => None,
        }
    }

    /// Whether `key` is in the map.
    pub fn contains_key(&self, key: &str) -> (r: bool)
        ensures
            r == self.has(key@),
    {
        self.position(key).is_some()
    }

    /// Puts `value` under `key`. A key that is there keeps its place; a new
    /// key comes last.
    pub fn insert(&mut self, key: String, value: V)
        requires
            old(self).wf(),
        ensures
            final(self).wf(),
            old(self).has(key@) ==> final(self).keys() == old(self).keys() && final(self).values()
                == old(self).values().update(position_of(old(self).keys(), key@), value),
            !old(self).has(key@) ==> final(self).keys() == old(self).keys().push(key@)
                && final(self).values() == old(self).values().push(value),
            final(self).as_map() == old(self).as_map().insert(key@, value),
    {
        proof {
            lemma_position_of(self.keys(), key@);
        }
        let ghost k0 = key@;
        match self.position(key.as_str()) {
            Some(i) => {
                self.entries.set(i, (key, value));
                assert(self.keys() =~= old(self).keys());
                assert(self.values() =~= old(self).values().update(i as int, value));
                proof {
                    old(self).lemma_wf();
                    assert forall|k: Seq<char>| self.has(k) implies #[trigger] self.lookup(k)->0 == (
                    if k == k0 {
                        value
                    } else {
                        old(self).lookup(k)->0
                    }) by {
                        lemma_position_of(self.keys(), k);
                    }
                    assert(self.as_map() =~= old(self).as_map().insert(k0, value));
                }
            },
            None => {
                self.entries.push((key, value));
                assert(self.keys() =~= old(self).keys().push(key@));
                assert(self.values() =~= old(self).values().push(value));
                assert forall|i: int, j: int| 0 <= i < j < self.entries@.len() implies (
                #[trigger] self.entries@[i]).0@ != (#[trigger] self.entries@[j]).0@ by {
                    if j == self.entries@.len() - 1 {
                        assert(old(self).keys()[i] == self.entries@[i].0@);
                    }
                }
                proof {
                    assert forall|k: Seq<char>| self.has(k) == (old(self).has(k) || k == k0) by {
                        lemma_position_of_push(old(self).keys(), k0, k);
                        lemma_position_of(self.keys(), k);
                        lemma_position_of(old(self).keys(), k);
                    }
                    assert forall|k: Seq<char>| self.has(k) implies #[trigger] self.lookup(k)->0 == (
                    if k == k0 {
                        value
                    } else {
                        old(self).lookup(k)->0
                    }) by {
                        lemma_position_of_push(old(self).keys(), k0, k);
                        lemma_position_of(old(self).keys(), k);
                    }
                    assert(self.as_map() =~= old(self).as_map().insert(k0, value));
                }
            },
        }
    }

    /// Puts `value` in place of the value at index `i`.
    pub fn set_value(&mut self, i: usize, value: V)
        requires
            old(self).wf(),
            i < old(self).keys().len(),
        ensures
            final(self).wf(),
            final(self).keys() == old(self).keys(),
            final(self).values() == old(self).values().update(i as int, value),
            final(self).as_map() == old(self).as_map().insert(old(self).keys()[i as int], value),
    {
        let key = self.entries[i].0.clone();
        self.entries.set(i, (key, value));
        assert(self.keys() =~= old(self).keys());
        assert(self.values() =~= old(self).values().update(i as int, value));
        proof {
            let k0 = old(self).keys()[i as int];
            old(self).lemma_wf();
            lemma_position_of_at(self.keys(), i as int);
            assert forall|k: Seq<char>| self.has(k) implies #[trigger] self.lookup(k)->0 == (if k
                == k0 {
                value
            } else {
                old(self).lookup(k)->0
            }) by {
                lemma_position_of(self.keys(), k);
            }
            assert(self.has(k0));
            assert(self.as_map() =~= old(self).as_map().insert(k0, value));
        }
    }
}

impl Dict<String> {
    /// A copy of the map.
    pub fn duplicate(&self) -> (d: Self)
        ensures
            d.wf() == self.wf(),
            d.keys() == self.keys(),
            d.values() == self.values(),
            d.as_map() == self.as_map(),
    {
        let mut entries: Vec<(String, String)> = Vec::new();
        let mut i: usize = 0;
        while i < self.entries.len()
            invariant
                i <= self.entries.len(),
                entries@ == self.entries@.take(i as int),
            decreases self.entries.len() - i,
        {
            entries.push((self.entries[i].0.clone(), self.entries[i].1.clone()));
            assert(entries@ =~= self.entries@.take(i + 1));
            i += 1;
        }
        assert(self.entries@.take(self.entries.len() as int) =~= self.entries@);
        let d = Dict { entries };
        assert(d.entries@ == self.entries@);
        d
    }

    /// The values as texts.
    pub open spec fn texts(self) -> Seq<Seq<char>> {
        self.values().map_values(|s: String| s@)
    }

    /// The map without its order, its values as texts.
    pub open spec fn text_map(self) -> Map<Seq<char>, Seq<char>> {
        self.as_map().map_values(|s: String| s@)
    }

    /// The first `count` entries as a map.
    pub open spec fn leading(self, count: int) -> Map<Seq<char>, String> {
        Map::new(
            |k: Seq<char>| self.keys().take(count).contains(k),
            |k: Seq<char>| self.lookup(k)->0,
        )
    }

    /// Puts each entry of `other` into the map, over what is there.
    pub fn absorb(&mut self, other: &Dict<String>)
        requires
            old(self).wf(),
            other.wf(),
        ensures
            final(self).wf(),
            final(self).as_map() == old(self).as_map().union_prefer_right(other.as_map()),
    {
        let n = other.len();
        let mut i: usize = 0;
        proof {
            other.lemma_wf();
            assert(other.keys().take(0) =~= Seq::<Seq<char>>::empty());
            assert(other.leading(0) =~= Map::<Seq<char>, String>::empty());
            assert(self.as_map() =~= old(self).as_map().union_prefer_right(other.leading(0)));
        }
        while i < n
            invariant
                i <= n,
                n == other.keys().len(),
                n == other.values().len(),
                other.wf(),
                other.keys().no_duplicates(),
                self.wf(),
                self.as_map() == old(self).as_map().union_prefer_right(other.leading(i as int)),
            decreases n - i,
        {
            let key = other.key(i).clone();
            let value = other.value(i).clone();
            proof {
                let seen = other.keys().take(i as int);
                let next = other.keys().take(i + 1);
                assert(next =~= seen.push(key@));
                lemma_position_of_at(other.keys(), i as int);
                assert(other.keys().contains(key@));
                assert forall|k: Seq<char>| next.contains(k) == (seen.contains(k) || k
                    == key@) by {
                    if seen.contains(k) {
                        let j = choose|j: int| 0 <= j < seen.len() && seen[j] == k;
                        assert(next[j] == k);
                    }
                    if next.contains(k) {
                        let j = choose|j: int| 0 <= j < next.len() && next[j] == k;
                        if j < i {
                            assert(seen[j] == k);
                        }
                    }
                    if k == key@ {
                        assert(next[i as int] == k);
                    }
                }
                assert(other.leading(i + 1) =~= other.leading(i as int).insert(key@, value));
                assert(old(self).as_map().union_prefer_right(other.leading(i as int)).insert(
                    key@,
                    value,
                ) =~= old(self).as_map().union_prefer_right(other.leading(i + 1)));
            }
            self.insert(key, value);
            i += 1;
        }
        proof {
            assert(other.keys().take(n as int) =~= other.keys());
            assert(other.leading(n as int) =~= other.as_map());
        }
    }
}

} // verus!
