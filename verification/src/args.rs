//! The argument map: which value goes in the place of which placeholder key.

use vstd::prelude::*;

verus! {

/// The entries of an argument map as plain values: pairs of key and value, in
/// the order in which their keys were first inserted.
pub type Entries = Seq<(Seq<char>, Seq<char>)>;

/// No key stands in two entries.
pub open spec fn keys_distinct(entries: Entries) -> bool {
    forall|i: int, j: int|
        0 <= i < j < entries.len() ==> (#[trigger] entries[i]).0 != (#[trigger] entries[j]).0
}

/// `key` is the key of the entry at position `at`.
pub open spec fn key_at(entries: Entries, key: Seq<char>, at: int) -> bool {
    0 <= at < entries.len() && entries[at].0 == key
}

/// The position of the entry with the given key, if there is one.
pub open spec fn position(entries: Entries, key: Seq<char>) -> Option<int> {
    if exists|at: int| key_at(entries, key, at) {
        Some(choose|at: int| key_at(entries, key, at))
    } else {
        None
    }
}

/// The value that stands under `key`, if any.
pub open spec fn lookup(entries: Entries, key: Seq<char>) -> Option<Seq<char>> {
    match position(entries, key) {
        Some(at) => Some(entries[at].1),
        None => None,
    }
}

/// The entries after `value` is put under `key`: a key that is already there
/// keeps its place and gets the new value, a new key goes to the end.
pub open spec fn put(entries: Entries, key: Seq<char>, value: Seq<char>) -> Entries {
    match position(entries, key) {
        Some(at) => entries.update(at, (key, value)),
        None => entries.push((key, value)),
    }
}

/// Putting a value under a key keeps the keys distinct.
pub proof fn lemma_put_keeps_keys_distinct(entries: Entries, key: Seq<char>, value: Seq<char>)
    requires
        keys_distinct(entries),
    ensures
        keys_distinct(put(entries, key, value)),
{
    let after = put(entries, key, value);
    assert forall|i: int, j: int| 0 <= i < j < after.len() implies (#[trigger] after[i]).0 != (
    #[trigger] after[j]).0 by {
        match position(entries, key) {
            Some(at) => {
                assert(key_at(entries, key, at));
                assert(entries[i].0 != entries[j].0);
            },
            None => {
                if j == entries.len() {
                    assert(!key_at(entries, key, i));
                } else {
                    assert(entries[i].0 != entries[j].0);
                }
            },
        }
    }
}

/// After a value is put under a key, that key holds the value and every other
/// key holds what it held before.
pub proof fn lemma_put_lookup(entries: Entries, key: Seq<char>, value: Seq<char>, other: Seq<char>)
    requires
        keys_distinct(entries),
    ensures
        lookup(put(entries, key, value), key) == Some(value),
        other != key ==> lookup(put(entries, key, value), other) == lookup(entries, other),
{
    let after = put(entries, key, value);
    lemma_put_keeps_keys_distinct(entries, key, value);
    let placed = match position(entries, key) {
        Some(at) => at,
        None => entries.len() as int,
    };
    if position(entries, key) is Some {
        assert(key_at(entries, key, placed));
    }
    assert(key_at(after, key, placed));
    let found = position(after, key)->0;
    assert(key_at(after, key, found));
    if found != placed {
        if found < placed {
            assert(after[found].0 != after[placed].0);
        } else {
            assert(after[placed].0 != after[found].0);
        }
    }
    if other != key {
        if exists|at: int| key_at(entries, other, at) {
            let before_at = position(entries, other)->0;
            assert(key_at(entries, other, before_at));
            assert(key_at(after, other, before_at));
            let after_at = position(after, other)->0;
            assert(key_at(after, other, after_at));
            if after_at != before_at {
                if after_at < before_at {
                    assert(after[after_at].0 != after[before_at].0);
                } else {
                    assert(after[before_at].0 != after[after_at].0);
                }
            }
        } else {
            assert forall|at: int| !key_at(after, other, at) by {
                if 0 <= at < entries.len() {
                    assert(!key_at(entries, other, at));
                }
            }
        }
    }
}

/// A mapping from placeholder key to substitution value. No key occurs twice;
/// the entries stand in the order in which their keys were first inserted.
#[derive(Debug, PartialEq, Eq)]
pub struct ArgumentMap {
    entries: Vec<(String, String)>,
}

impl View for ArgumentMap {
    type V = Entries;

    closed spec fn view(&self) -> Entries {
        Seq::new(self.entries@.len(), |i: int| (self.entries@[i].0@, self.entries@[i].1@))
    }
}

impl ArgumentMap {
    #[verifier::type_invariant]
    spec fn well_formed(self) -> bool {
        keys_distinct(self@)
    }

    /// The empty map.
    pub fn new() -> (map: ArgumentMap)
        ensures
            map@ == Entries::empty(),
    {
        let map = ArgumentMap { entries: Vec::new() };
        assert(map@ =~= Entries::empty());
        map
    }

    /// The number of entries; the keys of a map are always distinct.
    pub fn len(&self) -> (n: usize)
        ensures
            n == self@.len(),
            keys_distinct(self@),
    {
        proof {
            use_type_invariant(self);
        }
        self.entries.len()
    }

    /// The entry at position `at`, key first, if the map has that many.
    pub fn entry(&self, at: usize) -> (entry: Option<(&String, &String)>)
        ensures
            match entry {
                Some((key, value)) => at < self@.len() && (key@, value@) == self@[at as int],
                None => at >= self@.len(),
            },
    {
        if at < self.entries.len() {
            Some((&self.entries[at].0, &self.entries[at].1))
        } else {
            None
        }
    }

    /// The position of the entry with the given key.
    fn find(&self, key: &String) -> (found: Option<usize>)
        ensures
            match found {
                Some(at) => position(self@, key@) == Some(at as int),
                None => position(self@, key@) is None,
            },
    {
        proof {
            use_type_invariant(self);
        }
        let mut at: usize = 0;
        while at < self.entries.len()
            invariant
                at <= self.entries.len(),
                keys_distinct(self@),
                forall|earlier: int| 0 <= earlier < at ==> !key_at(self@, key@, earlier),
            decreases self.entries.len() - at,
        {
            if self.entries[at].0 == *key {
                assert(key_at(self@, key@, at as int));
                let ghost chosen = position(self@, key@)->0;
                assert(key_at(self@, key@, chosen));
                assert(chosen == at) by {
                    if chosen < at {
                        assert(self@[chosen].0 != self@[at as int].0);
                    } else if at < chosen {
                        assert(self@[at as int].0 != self@[chosen].0);
                    }
                }
                return Some(at);
            }
            at = at + 1;
        }
        None
    }

    /// The value that stands under `key`, if any.
    pub fn get(&self, key: &str) -> (value: Option<&String>)
        ensures
            match value {
                Some(v) => lookup(self@, key@) == Some(v@),
                None => lookup(self@, key@) is None,
            },
    {
        let owned = key.to_owned();
        match self.find(&owned) {
            Some(at) => Some(&self.entries[at].1),
            None => None,
        }
    }

    /// Puts `value` under `key`. A key that is already there keeps its place
    /// and gets the new value; a new key goes to the end.
    pub fn insert(&mut self, key: String, value: String)
        ensures
            final(self)@ == put(old(self)@, key@, value@),
    {
        proof {
            use_type_invariant(&*self);
            lemma_put_keeps_keys_distinct(self@, key@, value@);
        }
        let found = self.find(&key);
        // The entries change outside the map and come back as a whole, so that
        // the map is never seen between two states.
        let mut taken = ArgumentMap::new();
        std::mem::swap(self, &mut taken);
        let mut entries = taken.entries;
        match found {
            Some(at) => {
                entries.set(at, (key, value));
            },
            None => {
                entries.push((key, value));
            },
        }
        let ghost after = ArgumentMap { entries };
        assert(after@ =~= put(old(self)@, key@, value@));
        *self = ArgumentMap { entries };
    }
}

} // verus!
