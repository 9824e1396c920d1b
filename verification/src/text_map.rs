//! An insertion-ordered map keyed by text.
//!
//! `TextMap<V>` stores its entries in a vector and keeps the keys pairwise
//! distinct. Its view is a `Map<Seq<char>, V>`.
//!
//! The maps of the standard library are specified only for keys whose
//! hashing or ordering the verifier knows. That holds of integers and not of
//! `String`: after an insertion into a `HashMap<String, u64>` or a
//! `BTreeMap<String, u64>` not even its length can be proved. So a map with
//! text keys is built here on a vector.

use vstd::prelude::*;

verus! {

/// Index of the last entry of `entries` whose key reads `key`, or `-1`.
pub open spec fn find_key<V>(entries: Seq<(String, V)>, key: Seq<char>) -> int
    decreases entries.len(),
{
    if entries.len() == 0 {
        -1
    } else if entries.last().0@ == key {
        entries.len() - 1
    } else {
        find_key(entries.drop_last(), key)
    }
}

/// No two entries of `entries` have the same key.
pub open spec fn distinct_keys<V>(entries: Seq<(String, V)>) -> bool {
    forall|i: int, j: int|
        0 <= i < j < entries.len() ==> (#[trigger] entries[i]).0@ != (#[trigger] entries[j]).0@
}

/// The map that a sequence of entries stands for; a later entry wins.
pub open spec fn entries_map<V>(entries: Seq<(String, V)>) -> Map<Seq<char>, V> {
    Map::new(
        |k: Seq<char>| find_key(entries, k) >= 0,
        |k: Seq<char>| entries[find_key(entries, k)].1,
    )
}

/// `find_key` gives a position whose key reads `key`, or `-1` where no
/// entry has that key.
proof fn lemma_find_key_range<V>(entries: Seq<(String, V)>, key: Seq<char>)
    ensures
        -1 <= find_key(entries, key) < entries.len(),
        find_key(entries, key) >= 0 ==> entries[find_key(entries, key)].0@ == key,
        find_key(entries, key) == -1 ==> forall|i: int|
            0 <= i < entries.len() ==> (#[trigger] entries[i]).0@ != key,
    decreases entries.len(),
{
    if entries.len() > 0 && entries.last().0@ != key {
        lemma_find_key_range(entries.drop_last(), key);
        assert forall|i: int| 0 <= i < entries.len() && find_key(entries, key) == -1 implies (
        #[trigger] entries[i]).0@ != key by {
            if i < entries.len() - 1 {
                assert(entries.drop_last()[i] == entries[i]);
            }
        }
    }
}

/// Among distinct keys, `find_key` finds each entry at its own position.
proof fn lemma_find_key_distinct<V>(entries: Seq<(String, V)>, i: int)
    requires
        distinct_keys(entries),
        0 <= i < entries.len(),
    ensures
        find_key(entries, entries[i].0@) == i,
{
    lemma_find_key_range(entries, entries[i].0@);
}

/// An entry added at the end is an insertion into the map.
proof fn lemma_entries_map_push<V>(entries: Seq<(String, V)>, key: String, value: V)
    ensures
        entries_map(entries.push((key, value))) == entries_map(entries).insert(key@, value),
{
    let after = entries.push((key, value));
    assert(after.drop_last() == entries);
    assert forall|k: Seq<char>| #[trigger] find_key(after, k) == (if k == key@ {
        entries.len() as int
    } else {
        find_key(entries, k)
    }) by {}
    assert forall|k: Seq<char>| k != key@ && find_key(entries, k) >= 0 implies after[find_key(
        entries,
        k,
    )].1 == entries[find_key(entries, k)].1 by {
        lemma_find_key_range(entries, k);
    }
    assert(entries_map(after) =~= entries_map(entries).insert(key@, value));
}

/// A new value in the place of an entry with the same key is an insertion
/// into the map, and keeps the keys distinct.
proof fn lemma_entries_map_update<V>(
    entries: Seq<(String, V)>,
    i: int,
    key: String,
    value: V,
)
    requires
        distinct_keys(entries),
        0 <= i < entries.len(),
        entries[i].0@ == key@,
    ensures
        distinct_keys(entries.update(i, (key, value))),
        entries_map(entries.update(i, (key, value))) == entries_map(entries).insert(key@, value),
{
    let after = entries.update(i, (key, value));
    assert(after.len() == entries.len());
    assert forall|a: int, b: int| 0 <= a < b < after.len() implies (#[trigger] after[a]).0@ != (
    #[trigger] after[b]).0@ by {
        assert(after[a].0@ == entries[a].0@);
        assert(after[b].0@ == entries[b].0@);
    }
    assert forall|k: Seq<char>| #[trigger] find_key(after, k) == find_key(entries, k) by {
        lemma_find_key_range(entries, k);
        lemma_find_key_range(after, k);
        if find_key(entries, k) >= 0 {
            assert(after[find_key(entries, k)].0@ == k);
            lemma_find_key_distinct(after, find_key(entries, k));
        } else if find_key(after, k) >= 0 {
            assert(entries[find_key(after, k)].0@ == k);
        }
    }
    lemma_find_key_distinct(entries, i);
    assert forall|k: Seq<char>| k != key@ && find_key(entries, k) >= 0 implies after[find_key(
        entries,
        k,
    )].1 == entries[find_key(entries, k)].1 by {
        lemma_find_key_range(entries, k);
    }
    assert(entries_map(after) =~= entries_map(entries).insert(key@, value));
}

/// A map from text keys to values, kept as a list of entries with pairwise
/// distinct keys in the order of their first insertion.
#[derive(Debug)]
pub struct TextMap<V> {
    entries: Vec<(String, V)>,
}

impl<V> View for TextMap<V> {
    type V = Map<Seq<char>, V>;

    closed spec fn view(&self) -> Map<Seq<char>, V> {
        entries_map(self.entries@)
    }
}

impl<V> TextMap<V> {
    #[verifier::type_invariant]
    spec fn inv(self) -> bool {
        distinct_keys(self.entries@)
    }

    /// The keys in the order in which the entries are stored.
    pub closed spec fn key_seq(&self) -> Seq<Seq<char>> {
        Seq::new(self.entries@.len(), |i: int| self.entries@[i].0@)
    }

    /// The values in the order in which the entries are stored.
    pub closed spec fn value_seq(&self) -> Seq<V> {
        Seq::new(self.entries@.len(), |i: int| self.entries@[i].1)
    }

    /// What ties the stored order to the view: the keys are distinct, they
    /// are exactly the view's domain, and each value sits beside its key.
    pub open spec fn ordered(&self) -> bool {
        &&& self.key_seq().len() == self.value_seq().len()
        &&& self.key_seq().no_duplicates()
        &&& forall|k: Seq<char>| self@.contains_key(k) <==> self.key_seq().contains(k)
        &&& forall|i: int|
            0 <= i < self.key_seq().len() ==> self@.contains_key(#[trigger] self.key_seq()[i])
                && self@[self.key_seq()[i]] == self.value_seq()[i]
    }

    /// A map with distinct keys is `ordered`.
    proof fn lemma_ordered(&self)
        requires
            distinct_keys(self.entries@),
        ensures
            self.ordered(),
    {
        let ks = self.key_seq();
        assert forall|i: int, j: int| 0 <= i < ks.len() && 0 <= j < ks.len() && i != j implies ks[i]
            != ks[j] by {
            if i < j {
                assert(self.entries@[i].0@ != self.entries@[j].0@);
            } else {
                assert(self.entries@[j].0@ != self.entries@[i].0@);
            }
        }
        assert forall|k: Seq<char>| self@.contains_key(k) <==> ks.contains(k) by {
            lemma_find_key_range(self.entries@, k);
            if self@.contains_key(k) {
                assert(ks[find_key(self.entries@, k)] == k);
            }
            if ks.contains(k) {
                let i = choose|i: int| 0 <= i < ks.len() && ks[i] == k;
                assert(self.entries@[i].0@ == k);
            }
        }
        assert forall|i: int| 0 <= i < ks.len() implies self@.contains_key(#[trigger] ks[i])
            && self@[ks[i]] == self.value_seq()[i] by {
            lemma_find_key_distinct(self.entries@, i);
        }
    }

    /// An empty map.
    pub fn new() -> (r: Self)
        ensures
            r@ == Map::<Seq<char>, V>::empty(),
            r.key_seq() == Seq::<Seq<char>>::empty(),
    {
        let r = TextMap { entries: Vec::new() };
        assert(r@ =~= Map::<Seq<char>, V>::empty());
        assert(r.key_seq() =~= Seq::<Seq<char>>::empty());
        r
    }

    /// The number of entries. Every map that a program holds is `ordered`,
    /// and a caller learns it here.
    pub fn len(&self) -> (n: usize)
        ensures
            n == self.key_seq().len(),
            self.ordered(),
    {
        proof {
            use_type_invariant(self);
            self.lemma_ordered();
        }
        self.entries.len()
    }

    /// The position of `key` among the entries, if it is there.
    fn position(&self, key: &String) -> (r: Option<usize>)
        ensures
            match r {
                Some(i) => i < self.entries@.len() && find_key(self.entries@, key@) == i,
                None => find_key(self.entries@, key@) == -1,
            },
    {
        proof {
            use_type_invariant(self);
        }
        let mut i: usize = 0;
        while i < self.entries.len()
            invariant
                i <= self.entries@.len(),
                distinct_keys(self.entries@),
                forall|j: int| 0 <= j < i ==> (#[trigger] self.entries@[j]).0@ != key@,
            decreases self.entries@.len() - i,
        {
            if self.entries[i].0 == *key {
                proof {
                    lemma_find_key_distinct(self.entries@, i as int);
                }
                return Some(i);
            }
            i += 1;
        }
        proof {
            lemma_find_key_range(self.entries@, key@);
        }
        None
    }

    /// Whether `key` has a value.
    pub fn contains_key(&self, key: &String) -> (b: bool)
        ensures
            b == self@.contains_key(key@),
    {
        self.position(key).is_some()
    }

    /// The value of `key`, if it has one.
    pub fn get(&self, key: &String) -> (r: Option<&V>)
        ensures
            match r {
                Some(v) => self@.contains_key(key@) && *v == self@[key@],
                None => !self@.contains_key(key@),
            },
    {
        match self.position(key) {
            Some(i) => Some(&self.entries[i].1),
            None => None,
        }
    }

    /// Gives `key` the value `value`, replacing the value it had.
    pub fn insert(&mut self, key: String, value: V)
        ensures
            final(self)@ == old(self)@.insert(key@, value),
            old(self)@.contains_key(key@) ==> final(self).key_seq() == old(self).key_seq(),
            !old(self)@.contains_key(key@) ==> final(self).key_seq() == old(self).key_seq().push(
                key@,
            ),
    {
        proof {
            use_type_invariant(&*self);
        }
        let found = self.position(&key);
        let mut entries: Vec<(String, V)> = Vec::new();
        core::mem::swap(&mut self.entries, &mut entries);
        proof {
            lemma_find_key_range(entries@, key@);
        }
        match found {
            Some(i) => {
                proof {
                    lemma_entries_map_update(entries@, i as int, key, value);
                }
                entries.set(i, (key, value));
            },
            None => {
                proof {
                    lemma_entries_map_push(entries@, key, value);
                }
                entries.push((key, value));
            },
        }
        self.entries = entries;
        proof {
            if found is Some {
                assert(self.key_seq() =~= old(self).key_seq());
            } else {
                assert(self.key_seq() =~= old(self).key_seq().push(key@));
            }
        }
    }

    /// Copies every entry of `other` into this map; where both have a key,
    /// the value of `other` replaces the one that was here.
    pub fn extend_from(&mut self, other: &TextMap<V>) where V: Clone
        ensures
            forall|k: Seq<char>|
                final(self)@.contains_key(k) <==> old(self)@.contains_key(k)
                    || other@.contains_key(k),
            forall|k: Seq<char>| #[trigger]
                other@.contains_key(k) ==> cloned(other@[k], final(self)@[k]),
            forall|k: Seq<char>| #[trigger]
                old(self)@.contains_key(k) && !other@.contains_key(k) ==> final(self)@[k] == old(
                    self,
                )@[k],
    {
        let n = other.len();
        let mut i: usize = 0;
        while i < n
            invariant
                i <= n,
                n == other.key_seq().len(),
                other.ordered(),
                forall|k: Seq<char>|
                    self@.contains_key(k) <==> old(self)@.contains_key(k) || exists|j: int|
                        0 <= j < i && other.key_seq()[j] == k,
                forall|j: int|
                    0 <= j < i ==> cloned(
                        other.value_seq()[j],
                        #[trigger] self@[other.key_seq()[j]],
                    ),
                forall|k: Seq<char>|
                    old(self)@.contains_key(k) && !(exists|j: int|
                        0 <= j < i && other.key_seq()[j] == k) ==> self@[k] == old(self)@[k],
            decreases n - i,
        {
            let key = other.key_at(i).clone();
            let value = other.value_at(i).clone();
            let ghost before = self@;
            self.insert(key, value);
            proof {
                let ks = other.key_seq();
                assert(self@ == before.insert(ks[i as int], value));
                assert forall|k: Seq<char>|
                    self@.contains_key(k) <==> old(self)@.contains_key(k) || exists|j: int|
                        0 <= j < i + 1 && ks[j] == k by {
                    if before.contains_key(k) && !old(self)@.contains_key(k) {
                        let j = choose|j: int| 0 <= j < i && ks[j] == k;
                        assert(0 <= j < i + 1 && ks[j] == k);
                    }
                    if exists|j: int| 0 <= j < i + 1 && ks[j] == k {
                        let j = choose|j: int| 0 <= j < i + 1 && ks[j] == k;
                        if j < i {
                            assert(before.contains_key(k));
                        }
                    }
                }
                assert forall|j: int| 0 <= j < i + 1 implies cloned(
                    other.value_seq()[j],
                    #[trigger] self@[ks[j]],
                ) by {
                    if j < i {
                        assert(ks[j] != ks[i as int]);
                    }
                }
                assert forall|k: Seq<char>|
                    old(self)@.contains_key(k) && !(exists|j: int|
                        0 <= j < i + 1 && ks[j] == k) implies self@[k] == old(self)@[k] by {
                    assert(!(0 <= i < i + 1 && ks[i as int] == k));
                    assert(!(exists|j: int| 0 <= j < i && ks[j] == k)) by {
                        if exists|j: int| 0 <= j < i && ks[j] == k {
                            let j = choose|j: int| 0 <= j < i && ks[j] == k;
                            assert(0 <= j < i + 1 && ks[j] == k);
                        }
                    }
                }
            }
            i += 1;
        }
        proof {
            let ks = other.key_seq();
            assert forall|k: Seq<char>|
                self@.contains_key(k) <==> old(self)@.contains_key(k) || other@.contains_key(
                    k,
                ) by {
                if other@.contains_key(k) {
                    assert(ks.contains(k));
                    let j = choose|j: int| 0 <= j < ks.len() && ks[j] == k;
                    assert(0 <= j < n && ks[j] == k);
                }
                if exists|j: int| 0 <= j < n && ks[j] == k {
                    let j = choose|j: int| 0 <= j < n && ks[j] == k;
                    assert(other@.contains_key(ks[j]));
                }
            }
            assert forall|k: Seq<char>| #[trigger] other@.contains_key(k) implies cloned(
                other@[k],
                self@[k],
            ) by {
                assert(ks.contains(k));
                let j = choose|j: int| 0 <= j < ks.len() && ks[j] == k;
                assert(0 <= j < n && ks[j] == k);
                assert(other@[ks[j]] == other.value_seq()[j]);
            }
            assert forall|k: Seq<char>|
                old(self)@.contains_key(k) && !other@.contains_key(k) implies self@[k] == old(
                self,
            )@[k] by {
                if exists|j: int| 0 <= j < n && ks[j] == k {
                    let j = choose|j: int| 0 <= j < n && ks[j] == k;
                    assert(other@.contains_key(ks[j]));
                }
            }
        }
    }

    /// The keys, in the order in which the entries are stored.
    pub fn keys(&self) -> (r: Vec<String>)
        ensures
            r@.len() == self.key_seq().len(),
            forall|i: int| 0 <= i < r@.len() ==> (#[trigger] r@[i])@ == self.key_seq()[i],
            self.ordered(),
    {
        let n = self.len();
        let mut r: Vec<String> = Vec::new();
        let mut i: usize = 0;
        while i < n
            invariant
                i <= n,
                n == self.key_seq().len(),
                r@.len() == i,
                forall|j: int| 0 <= j < i ==> (#[trigger] r@[j])@ == self.key_seq()[j],
            decreases n - i,
        {
            r.push(self.key_at(i).clone());
            i += 1;
        }
        r
    }

    /// The key of the entry at position `i`.
    pub fn key_at(&self, i: usize) -> (k: &String)
        requires
            i < self.key_seq().len(),
        ensures
            k@ == self.key_seq()[i as int],
    {
        &self.entries[i].0
    }

    /// The value of the entry at position `i`.
    pub fn value_at(&self, i: usize) -> (v: &V)
        requires
            i < self.key_seq().len(),
        ensures
            *v == self.value_seq()[i as int],
    {
        &self.entries[i].1
    }
}

impl<V: Clone> Clone for TextMap<V> {
    fn clone(&self) -> (r: Self)
        ensures
            r@.dom() == self@.dom(),
            forall|k: Seq<char>| #[trigger] self@.contains_key(k) ==> cloned(self@[k], r@[k]),
    {
        let mut r = TextMap::new();
        r.extend_from(self);
        assert(r@.dom() =~= self@.dom());
        r
    }
}

} // verus!
