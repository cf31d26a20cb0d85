//! An insertion-ordered map from text keys to values.

use crate::text::views;
use vstd::prelude::*;

verus! {

/// A finite map keyed by strings that remembers the order in which its keys
/// arrived. No key occurs twice.
#[derive(Debug)]
pub struct KeyMap<V> {
    keys: Vec<String>,
    values: Vec<V>,
}

impl<V> KeyMap<V> {
    /// The keys, in the order of their arrival.
    pub closed spec fn spec_keys(&self) -> Seq<Seq<char>> {
        views(self.keys@)
    }

    /// The values, each at the position of its key.
    pub closed spec fn spec_values(&self) -> Seq<V> {
        self.values@
    }

    /// Every key has one value, and no key occurs twice.
    pub open spec fn wf(&self) -> bool {
        &&& self.spec_keys().len() == self.spec_values().len()
        &&& self.spec_keys().no_duplicates()
    }

    pub open spec fn spec_len(&self) -> nat {
        self.spec_keys().len()
    }

    pub open spec fn contains(&self, key: Seq<char>) -> bool {
        self.spec_keys().contains(key)
    }

    /// The position of `key`; meaningful only where the map contains it.
    pub open spec fn spec_position(&self, key: Seq<char>) -> int {
        self.spec_keys().index_of(key)
    }

    /// The value of `key`; meaningful only where the map contains it.
    pub open spec fn spec_get(&self, key: Seq<char>) -> V {
        self.spec_values()[self.spec_position(key)]
    }

    /// The map as a mathematical map, forgetting the order of arrival.
    pub open spec fn as_map(&self) -> Map<Seq<char>, V> {
        Map::new(|k: Seq<char>| self.contains(k), |k: Seq<char>| self.spec_get(k))
    }

    /// In a well-formed map the key at position `i` is found at position `i`.
    pub proof fn lemma_position(&self, i: int)
        requires
            self.wf(),
            0 <= i < self.spec_len(),
        ensures
            self.contains(self.spec_keys()[i]),
            self.spec_position(self.spec_keys()[i]) == i,
            self.spec_get(self.spec_keys()[i]) == self.spec_values()[i],
    {
        let k = self.spec_keys()[i];
        assert(self.spec_keys().contains(k));
        let j = self.spec_keys().index_of(k);
        assert(0 <= j < self.spec_keys().len() && self.spec_keys()[j] == k);
    }

    pub fn new() -> (m: Self)
        ensures
            m.wf(),
            m.spec_len() == 0,
    {
        KeyMap { keys: Vec::new(), values: Vec::new() }
    }

    pub fn len(&self) -> (n: usize)
        requires
            self.wf(),
        ensures
            n == self.spec_len(),
    {
        self.keys.len()
    }

    pub fn key_at(&self, i: usize) -> (key: &String)
        requires
            self.wf(),
            i < self.spec_len(),
        ensures
            key@ == self.spec_keys()[i as int],
    {
        &self.keys[i]
    }

    pub fn value_at(&self, i: usize) -> (value: &V)
        requires
            self.wf(),
            i < self.spec_len(),
        ensures
            *value == self.spec_values()[i as int],
    {
        &self.values[i]
    }

    /// A mutable borrow of the value at position `i`; the keys stay as they are.
    pub fn value_mut(&mut self, i: usize) -> (value: &mut V)
        requires
            old(self).wf(),
            i < old(self).spec_len(),
        ensures
            *value == old(self).spec_values()[i as int],
            final(self).spec_keys() == old(self).spec_keys(),
            final(self).spec_values() == old(self).spec_values().update(i as int, *final(value)),
    {
        &mut self.values[i]
    }

    /// Looks `key` up: its position, or `None` where the map does not contain it.
    pub fn find(&self, key: &str) -> (found: Option<usize>)
        requires
            self.wf(),
        ensures
            match found {
                Some(i) => i < self.spec_len() && self.spec_keys()[i as int] == key@
                    && self.spec_position(key@) == i,
                None => !self.contains(key@),
            },
    {
        let wanted: String = key.to_owned();
        let mut i: usize = 0;
        while i < self.keys.len()
            invariant
                self.wf(),
                i <= self.keys.len(),
                wanted@ == key@,
                forall|j: int| 0 <= j < i ==> self.spec_keys()[j] != key@,
            decreases self.keys.len() - i,
        {
            if self.keys[i] == wanted {
                proof {
                    self.lemma_position(i as int);
                }
                return Some(i);
            }
            i += 1;
        }
        None
    }

    /// The value of `key`, or `None` where the map does not contain it.
    pub fn get(&self, key: &str) -> (found: Option<&V>)
        requires
            self.wf(),
        ensures
            match found {
                Some(value) => self.contains(key@) && *value == self.spec_get(key@),
                None => !self.contains(key@),
            },
    {
        match self.find(key) {
            Some(i) => Some(&self.values[i]),
            None => None,
        }
    }

    /// Gives `key` the value `value`. A key that the map contains keeps its
    /// place; a new key comes after all others. Says whether the key was new.
    pub fn insert(&mut self, key: String, value: V) -> (added: bool)
        requires
            old(self).wf(),
        ensures
            final(self).wf(),
            added == !old(self).contains(key@),
            final(self).as_map() == old(self).as_map().insert(key@, value),
            added ==> final(self).spec_keys() == old(self).spec_keys().push(key@)
                && final(self).spec_values() == old(self).spec_values().push(value),
            !added ==> final(self).spec_keys() == old(self).spec_keys()
                && final(self).spec_values() == old(self).spec_values().update(
                old(self).spec_position(key@),
                value,
            ),
    {
        match self.find(key.as_str()) {
            Some(i) => {
                self.values.set(i, value);
                proof {
                    assert forall|k: Seq<char>| self.contains(k) implies #[trigger] self.as_map()[k]
                        == old(self).as_map().insert(key@, value)[k] by {
                        let j = self.spec_position(k);
                        if k != key@ {
                            assert(j != i);
                        }
                    }
                    assert(self.as_map() =~= old(self).as_map().insert(key@, value));
                }
                false
            },
            None => {
                let ghost n: int = self.spec_len() as int;
                self.keys.push(key);
                self.values.push(value);
                proof {
                    assert(self.spec_keys() =~= old(self).spec_keys().push(key@));
                    assert(self.spec_keys()[n] == key@);
                    self.lemma_position(n);
                    assert forall|k: Seq<char>| old(self).contains(k) implies self.contains(k)
                        && self.spec_get(k) == old(self).spec_get(k) by {
                        let j = old(self).spec_position(k);
                        assert(self.spec_keys()[j] == k);
                        self.lemma_position(j);
                    }
                    assert forall|k: Seq<char>| self.contains(k) implies k == key@ || old(
                        self,
                    ).contains(k) by {
                        let j = self.spec_position(k);
                        if j < n {
                            assert(old(self).spec_keys()[j] == k);
                        }
                    }
                    assert(self.as_map() =~= old(self).as_map().insert(key@, value));
                }
                true
            },
        }
    }

    /// Adds a key that the map does not contain yet, after all others.
    pub fn push(&mut self, key: String, value: V)
        requires
            old(self).wf(),
            !old(self).contains(key@),
        ensures
            final(self).wf(),
            final(self).spec_keys() == old(self).spec_keys().push(key@),
            final(self).spec_values() == old(self).spec_values().push(value),
    {
        self.keys.push(key);
        self.values.push(value);
        assert(self.spec_keys() =~= old(self).spec_keys().push(key@));
    }
}

} // verus!
