//! Keyed collections used throughout the crate.
//!
//! [`Table`] is a hash table whose keys are small `Copy` values that pack
//! into a `u64`; [`Roster`] is an association list that also remembers the
//! order in which its keys first arrived, for the places that walk their
//! entries. Both are specified over the views of their values.
use std::collections::hash_map::Entry;
use std::collections::HashMap;
use std::marker::PhantomData;

use vstd::prelude::*;

verus! {

/// A value that packs into a `u64` without loss.
pub trait Key: Sized + Copy {
    /// The packed form of this key.
    spec fn packed(self) -> u64;

    /// Two keys with the same packed form are the same key.
    proof fn lemma_packed_injective(a: Self, b: Self)
        requires
            a.packed() == b.packed(),
        ensures
            a == b,
    ;

    /// Computes the packed form of this key.
    fn pack(&self) -> (code: u64)
        ensures
            code == self.packed(),
    ;
}

/// A hash table from `K` to `V`.
pub struct Table<K, V> {
    entries: HashMap<u64, V>,
    keys: PhantomData<K>,
}

impl<K: Key, V: View> View for Table<K, V> {
    type V = Map<K, V::V>;

    closed spec fn view(&self) -> Map<K, V::V> {
        Map::new(
            |k: K| self.entries@.contains_key(k.packed()),
            |k: K| self.entries@[k.packed()]@,
        )
    }
}

impl<K: Key, V: View> Table<K, V> {
    pub fn new() -> (table: Self)
        ensures
            table@ == Map::<K, V::V>::empty(),
    {
        broadcast use vstd::std_specs::hash::group_hash_axioms;

        let table = Table { entries: HashMap::new(), keys: PhantomData };
        assert(table@ =~= Map::<K, V::V>::empty());
        table
    }

    pub fn contains(&self, key: K) -> (found: bool)
        ensures
            found == self@.contains_key(key),
    {
        broadcast use vstd::std_specs::hash::group_hash_axioms;

        self.entries.contains_key(&key.pack())
    }

    pub fn get(&self, key: K) -> (value: Option<&V>)
        ensures
            match value {
                Some(v) => self@.contains_key(key) && v@ == self@[key],
                None => !self@.contains_key(key),
            },
    {
        broadcast use vstd::std_specs::hash::group_hash_axioms;

        self.entries.get(&key.pack())
    }

    pub fn get_mut(&mut self, key: K) -> (value: Option<&mut V>)
        ensures
            match value {
                Some(v) => {
                    &&& old(self)@.contains_key(key)
                    &&& v@ == old(self)@[key]
                    &&& final(self)@ == old(self)@.insert(key, (*final(v))@)
                },
                None => {
                    &&& !old(self)@.contains_key(key)
                    &&& final(self)@ == old(self)@
                },
            },
    {
        broadcast use vstd::std_specs::hash::group_hash_axioms;

        proof {
            lemma_packed_distinct::<K>();
        }
        if !self.entries.contains_key(&key.pack()) {
            return None;
        }
        match self.entries.entry(key.pack()) {
            Entry::Occupied(entry) => Some(entry.into_mut()),
            Entry::Vacant(_) => None,
        }
    }

    pub fn insert(&mut self, key: K, value: V)
        ensures
            final(self)@ == old(self)@.insert(key, value@),
    {
        broadcast use vstd::std_specs::hash::group_hash_axioms;

        proof {
            lemma_packed_distinct::<K>();
        }
        self.entries.insert(key.pack(), value);
        assert(self@ =~= old(self)@.insert(key, value@));
    }

    pub fn remove(&mut self, key: K) -> (value: Option<V>)
        ensures
            final(self)@ == old(self)@.remove(key),
            match value {
                Some(v) => old(self)@.contains_key(key) && v@ == old(self)@[key],
                None => !old(self)@.contains_key(key),
            },
    {
        broadcast use vstd::std_specs::hash::group_hash_axioms;

        proof {
            lemma_packed_distinct::<K>();
        }
        let value = self.entries.remove(&key.pack());
        assert(self@ =~= old(self)@.remove(key));
        value
    }

    pub fn clear(&mut self)
        ensures
            final(self)@ == Map::<K, V::V>::empty(),
    {
        self.entries.clear();
        assert(self@ =~= Map::<K, V::V>::empty());
    }
}

/// An association list in the order in which its keys first arrived.
pub struct Roster<K, V> {
    entries: Vec<(K, V)>,
}

/// Entry `i` is the first one of `s` that is filed under `key`.
pub open spec fn files_at<K, W>(s: Seq<(K, W)>, key: K, i: int) -> bool {
    &&& 0 <= i < s.len()
    &&& s[i].0 == key
    &&& forall|j: int| 0 <= j < i ==> (#[trigger] s[j]).0 != key
}

/// Some entry of `s` is filed under `key`.
pub open spec fn has_key<K, W>(s: Seq<(K, W)>, key: K) -> bool {
    exists|i: int| files_at(s, key, i)
}

/// The index of the first entry filed under `key`.
pub open spec fn index_of_key<K, W>(s: Seq<(K, W)>, key: K) -> int {
    choose|i: int| files_at(s, key, i)
}

/// The value filed under `key`, if there is one.
pub open spec fn lookup<K, W>(s: Seq<(K, W)>, key: K) -> Option<W> {
    if has_key(s, key) {
        Some(s[index_of_key(s, key)].1)
    } else {
        None
    }
}

/// `s` with `value` filed under `key`: in place of the value that was there,
/// or at the end if there was none.
pub open spec fn filed<K, W>(s: Seq<(K, W)>, key: K, value: W) -> Seq<(K, W)> {
    if has_key(s, key) {
        s.update(index_of_key(s, key), (key, value))
    } else {
        s.push((key, value))
    }
}

/// `s` without its first entry filed under `key`.
pub open spec fn unfiled<K, W>(s: Seq<(K, W)>, key: K) -> Seq<(K, W)> {
    if has_key(s, key) {
        s.remove(index_of_key(s, key))
    } else {
        s
    }
}

/// No key of `s` occurs twice.
pub open spec fn keys_distinct<K, W>(s: Seq<(K, W)>) -> bool {
    forall|i: int, j: int| 0 <= i < j < s.len() ==> (#[trigger] s[i]).0 != (#[trigger] s[j]).0
}

/// The first entry for a key is found by its index.
pub proof fn lemma_files_at<K, W>(s: Seq<(K, W)>, key: K, i: int)
    requires
        files_at(s, key, i),
    ensures
        has_key(s, key),
        index_of_key(s, key) == i,
        lookup(s, key) == Some(s[i].1),
{
    let k = index_of_key(s, key);
    assert(files_at(s, key, k));
    if k < i {
        assert(s[k].0 != key);
    } else if i < k {
        assert(s[i].0 != key);
    }
}

/// A key that no entry is filed under has no value.
pub proof fn lemma_no_key<K, W>(s: Seq<(K, W)>, key: K)
    requires
        forall|j: int| 0 <= j < s.len() ==> (#[trigger] s[j]).0 != key,
    ensures
        !has_key(s, key),
        lookup(s, key) == None::<W>,
{
}

/// A key that some entry is filed under has a first entry.
pub proof fn lemma_some_key<K, W>(s: Seq<(K, W)>, key: K, i: int)
    requires
        0 <= i < s.len(),
        s[i].0 == key,
    ensures
        has_key(s, key),
        index_of_key(s, key) <= i,
    decreases i,
{
    if exists|j: int| 0 <= j < i && (#[trigger] s[j]).0 == key {
        let j = choose|j: int| 0 <= j < i && (#[trigger] s[j]).0 == key;
        lemma_some_key(s, key, j);
    } else {
        lemma_files_at(s, key, i);
    }
}

/// What was filed under a key is what is found under it, and no other key
/// notices.
pub proof fn lemma_lookup_filed<K, W>(s: Seq<(K, W)>, key: K, value: W, other: K)
    ensures
        lookup(filed(s, key, value), key) == Some(value),
        other != key ==> lookup(filed(s, key, value), other) == lookup(s, other),
{
    let t = filed(s, key, value);
    if has_key(s, key) {
        let i = index_of_key(s, key);
        assert(files_at(s, key, i));
        assert(files_at(t, key, i));
        lemma_files_at(t, key, i);
    } else {
        assert forall|j: int| 0 <= j < s.len() implies (#[trigger] s[j]).0 != key by {
            if s[j].0 == key {
                lemma_some_key(s, key, j);
            }
        }
        assert(files_at(t, key, s.len() as int));
        lemma_files_at(t, key, s.len() as int);
    }
    if other != key {
        if has_key(s, other) {
            let i = index_of_key(s, other);
            assert(files_at(s, other, i));
            assert(files_at(t, other, i));
            lemma_files_at(t, other, i);
        } else {
            assert forall|j: int| 0 <= j < t.len() implies (#[trigger] t[j]).0 != other by {
                if t[j].0 == other {
                    lemma_some_key(s, other, j);
                }
            }
            lemma_no_key(t, other);
        }
    }
}

/// Removing a key from a list without repeated keys leaves every other key
/// as it was, and the key itself gone.
pub proof fn lemma_lookup_unfiled<K, W>(s: Seq<(K, W)>, key: K, other: K)
    requires
        keys_distinct(s),
    ensures
        !has_key(unfiled(s, key), key),
        other != key ==> lookup(unfiled(s, key), other) == lookup(s, other),
{
    let t = unfiled(s, key);
    if has_key(s, key) {
        let i = index_of_key(s, key);
        assert(files_at(s, key, i));
        assert forall|j: int| 0 <= j < t.len() implies (#[trigger] t[j]).0 != key by {
            if j < i {
                assert(t[j] == s[j]);
            } else {
                assert(t[j] == s[j + 1]);
            }
        }
        lemma_no_key(t, key);
        if other != key {
            if has_key(s, other) {
                let k = index_of_key(s, other);
                assert(files_at(s, other, k));
                let m = if k < i {
                    k
                } else {
                    k - 1
                };
                assert(t[m] == s[k]);
                assert forall|j: int| 0 <= j < m implies (#[trigger] t[j]).0 != other by {
                    if j < i {
                        assert(t[j] == s[j]);
                    } else {
                        assert(t[j] == s[j + 1]);
                    }
                }
                assert(files_at(t, other, m));
                lemma_files_at(t, other, m);
            } else {
                assert forall|j: int| 0 <= j < t.len() implies (#[trigger] t[j]).0 != other by {
                    if t[j].0 == other {
                        if j < i {
                            lemma_some_key(s, other, j);
                        } else {
                            lemma_some_key(s, other, j + 1);
                        }
                    }
                }
                lemma_no_key(t, other);
            }
        }
    }
}

/// Filing and removing never make a key occur twice.
pub proof fn lemma_keys_stay_distinct<K, W>(s: Seq<(K, W)>, key: K, value: W)
    requires
        keys_distinct(s),
    ensures
        keys_distinct(filed(s, key, value)),
        keys_distinct(unfiled(s, key)),
{
    if has_key(s, key) {
        assert(files_at(s, key, index_of_key(s, key)));
    } else {
        assert forall|j: int| 0 <= j < s.len() implies (#[trigger] s[j]).0 != key by {
            if s[j].0 == key {
                lemma_some_key(s, key, j);
            }
        }
    }
}

/// Filing keeps keys from occurring twice.
pub broadcast proof fn lemma_filed_distinct<K, W>(s: Seq<(K, W)>, key: K, value: W)
    requires
        keys_distinct(s),
    ensures
        keys_distinct(#[trigger] filed(s, key, value)),
{
    lemma_keys_stay_distinct(s, key, value);
}

/// Removing keeps keys from occurring twice.
pub broadcast proof fn lemma_unfiled_distinct<K, W>(s: Seq<(K, W)>, key: K)
    requires
        keys_distinct(s),
    ensures
        keys_distinct(#[trigger] unfiled(s, key)),
{
    if has_key(s, key) {
        assert(files_at(s, key, index_of_key(s, key)));
    }
}

/// Filing at the very end keeps keys from occurring twice.
pub broadcast proof fn lemma_raised_distinct<K, W>(s: Seq<(K, W)>, key: K, value: W)
    requires
        keys_distinct(s),
    ensures
        keys_distinct(#[trigger] unfiled(s, key).push((key, value))),
{
    lemma_unfiled_distinct(s, key);
    lemma_lookup_unfiled(s, key, key);
    let t = unfiled(s, key);
    assert forall|j: int| 0 <= j < t.len() implies (#[trigger] t[j]).0 != key by {
        if t[j].0 == key {
            lemma_some_key(t, key, j);
        }
    }
}

pub broadcast group group_keys_distinct {
    lemma_filed_distinct,
    lemma_unfiled_distinct,
    lemma_raised_distinct,
}

impl<K: Key, V: View> View for Roster<K, V> {
    type V = Seq<(K, V::V)>;

    closed spec fn view(&self) -> Seq<(K, V::V)> {
        self.entries@.map_values(|e: (K, V)| (e.0, e.1@))
    }
}

impl<K: Key, V: View> Roster<K, V> {
    pub fn new() -> (roster: Self)
        ensures
            roster@ == Seq::<(K, V::V)>::empty(),
    {
        let roster = Roster { entries: Vec::new() };
        assert(roster@ =~= Seq::<(K, V::V)>::empty());
        roster
    }

    pub fn len(&self) -> (n: usize)
        ensures
            n == self@.len(),
    {
        self.entries.len()
    }

    /// The `i`th entry.
    pub fn at(&self, i: usize) -> (entry: (K, &V))
        requires
            i < self@.len(),
        ensures
            entry.0 == self@[i as int].0,
            entry.1@ == self@[i as int].1,
    {
        let entry = &self.entries[i];
        (entry.0, &entry.1)
    }

    fn find(&self, key: K) -> (slot: Option<usize>)
        ensures
            match slot {
                Some(i) => files_at(self@, key, i as int),
                None => !has_key(self@, key),
            },
    {
        proof {
            lemma_packed_distinct::<K>();
        }
        let code = key.pack();
        let mut i: usize = 0;
        while i < self.entries.len()
            invariant
                code == key.packed(),
                i <= self.entries.len(),
                forall|a: K, b: K| a.packed() == b.packed() ==> a == b,
                forall|j: int| 0 <= j < i ==> (#[trigger] self@[j]).0 != key,
            decreases self.entries.len() - i,
        {
            assert(self@[i as int].0 == self.entries@[i as int].0);
            if self.entries[i].0.pack() == code {
                return Some(i);
            }
            i += 1;
        }
        None
    }

    pub fn contains(&self, key: K) -> (found: bool)
        ensures
            found == has_key(self@, key),
    {
        self.find(key).is_some()
    }

    pub fn get(&self, key: K) -> (value: Option<&V>)
        ensures
            match value {
                Some(v) => lookup(self@, key) == Some(v@),
                None => lookup(self@, key) == None::<V::V>,
            },
    {
        match self.find(key) {
            Some(i) => {
                proof {
                    lemma_files_at(self@, key, i as int);
                }
                Some(&self.entries[i].1)
            },
            None => None,
        }
    }

    pub fn get_mut(&mut self, key: K) -> (value: Option<&mut V>)
        ensures
            match value {
                Some(v) => {
                    &&& lookup(old(self)@, key) == Some((*v)@)
                    &&& final(self)@ == filed(old(self)@, key, (*final(v))@)
                },
                None => {
                    &&& lookup(old(self)@, key) == None::<V::V>
                    &&& final(self)@ == old(self)@
                },
            },
    {
        match self.find(key) {
            Some(i) => {
                proof {
                    lemma_files_at(self@, key, i as int);
                }
                assert(self@[i as int].0 == key);
                Some(&mut self.entries[i].1)
            },
            None => None,
        }
    }

    /// Takes every entry out, in order.
    pub fn drain(&mut self) -> (entries: Vec<(K, V)>)
        ensures
            entries@.map_values(|e: (K, V)| (e.0, e.1@)) == old(self)@,
            final(self)@ == Seq::<(K, V::V)>::empty(),
    {
        let mut entries: Vec<(K, V)> = Vec::new();
        std::mem::swap(&mut entries, &mut self.entries);
        assert(self@ =~= Seq::<(K, V::V)>::empty());
        entries
    }

    /// Files `value` under `key`.
    pub fn insert(&mut self, key: K, value: V)
        ensures
            final(self)@ == filed(old(self)@, key, value@),
    {
        match self.find(key) {
            Some(i) => {
                proof {
                    lemma_files_at(self@, key, i as int);
                }
                self.entries.set(i, (key, value));
            },
            None => {
                self.entries.push((key, value));
            },
        }
        assert(self@ =~= filed(old(self)@, key, value@));
    }

    /// Files `value` under `key` at the very end.
    pub fn raise(&mut self, key: K, value: V)
        ensures
            final(self)@ == unfiled(old(self)@, key).push((key, value@)),
    {
        self.remove(key);
        self.entries.push((key, value));
        assert(self@ =~= unfiled(old(self)@, key).push((key, value@)));
    }

    /// Removes the value filed under `key`.
    pub fn remove(&mut self, key: K) -> (value: Option<V>)
        ensures
            final(self)@ == unfiled(old(self)@, key),
            match value {
                Some(v) => lookup(old(self)@, key) == Some(v@),
                None => lookup(old(self)@, key) == None::<V::V>,
            },
    {
        match self.find(key) {
            Some(i) => {
                proof {
                    lemma_files_at(self@, key, i as int);
                }
                let entry = self.entries.remove(i);
                assert(self@ =~= unfiled(old(self)@, key));
                Some(entry.1)
            },
            None => None,
        }
    }

    pub fn clear(&mut self)
        ensures
            final(self)@ == Seq::<(K, V::V)>::empty(),
    {
        self.entries.clear();
        assert(self@ =~= Seq::<(K, V::V)>::empty());
    }
}

proof fn lemma_packed_distinct<K: Key>()
    ensures
        forall|a: K, b: K| a.packed() == b.packed() ==> a == b,
{
    assert forall|a: K, b: K| a.packed() == b.packed() implies a == b by {
        K::lemma_packed_injective(a, b);
    }
}

} // verus!
