//! A small map from string keys to values, kept as an association list in
//! insertion order. Inserting an existing key replaces its value in place.

use vstd::prelude::*;

verus! {

/// The map that an association list denotes: a later entry for a key
/// overrides an earlier one.
pub open spec fn assoc_map<V>(s: Seq<(String, V)>) -> Map<Seq<char>, V>
    decreases s.len(),
{
    if s.len() == 0 {
        Map::empty()
    } else {
        assoc_map(s.drop_last()).insert(s.last().0@, s.last().1)
    }
}

/// No entry at or after index `i` has the key `k`.
pub open spec fn absent_from<V>(s: Seq<(String, V)>, i: int, k: Seq<char>) -> bool {
    forall|j: int| i <= j < s.len() ==> (#[trigger] s[j]).0@ != k
}

/// Entries after index `i` do not change what the list says of `k`.
pub proof fn lemma_absent_suffix<V>(s: Seq<(String, V)>, i: int, k: Seq<char>)
    requires
        0 <= i <= s.len(),
        absent_from(s, i, k),
    ensures
        assoc_map(s).contains_key(k) == assoc_map(s.subrange(0, i)).contains_key(k),
        assoc_map(s)[k] == assoc_map(s.subrange(0, i))[k],
    decreases s.len() - i,
{
    if i < s.len() {
        let t = s.drop_last();
        assert(absent_from(t, i, k));
        lemma_absent_suffix(t, i, k);
        assert(t.subrange(0, i) =~= s.subrange(0, i));
        assert(s[s.len() - 1].0@ != k);
    } else {
        assert(s.subrange(0, i) =~= s);
    }
}

/// The value the list holds for the key of its entry at `i`, when no later
/// entry has that key.
pub proof fn lemma_last_occurrence<V>(s: Seq<(String, V)>, i: int)
    requires
        0 <= i < s.len(),
        absent_from(s, i + 1, s[i].0@),
    ensures
        assoc_map(s).contains_key(s[i].0@),
        assoc_map(s)[s[i].0@] == s[i].1,
{
    lemma_absent_suffix(s, i + 1, s[i].0@);
    let t = s.subrange(0, i + 1);
    assert(t.drop_last() =~= s.subrange(0, i));
}

/// A key that no entry has is not in the map.
pub proof fn lemma_absent_all<V>(s: Seq<(String, V)>, k: Seq<char>)
    requires
        absent_from(s, 0, k),
    ensures
        !assoc_map(s).contains_key(k),
{
    lemma_absent_suffix(s, 0, k);
    assert(s.subrange(0, 0) =~= Seq::<(String, V)>::empty());
}

/// Replacing the last entry for a key replaces that key's value in the map.
pub proof fn lemma_update_last<V>(s: Seq<(String, V)>, i: int, x: (String, V))
    requires
        0 <= i < s.len(),
        x.0@ == s[i].0@,
        absent_from(s, i + 1, s[i].0@),
    ensures
        assoc_map(s.update(i, x)) =~= assoc_map(s).insert(x.0@, x.1),
    decreases s.len(),
{
    let u = s.update(i, x);
    if i == s.len() - 1 {
        assert(u.drop_last() =~= s.drop_last());
    } else {
        let t = s.drop_last();
        assert(absent_from(t, i + 1, t[i].0@));
        lemma_update_last(t, i, x);
        assert(u.drop_last() =~= t.update(i, x));
        assert(s.last().0@ != x.0@);
    }
}

/// The key of every entry is in the map.
pub proof fn lemma_entry_key_in_map<V>(s: Seq<(String, V)>, j: int)
    requires
        0 <= j < s.len(),
    ensures
        assoc_map(s).contains_key(s[j].0@),
    decreases s.len(),
{
    if j < s.len() - 1 {
        lemma_entry_key_in_map(s.drop_last(), j);
    }
}

/// Every key of the map is the key of some entry.
pub proof fn lemma_map_key_has_entry<V>(s: Seq<(String, V)>, k: Seq<char>)
    requires
        assoc_map(s).contains_key(k),
    ensures
        exists|j: int| 0 <= j < s.len() && (#[trigger] s[j]).0@ == k,
    decreases s.len(),
{
    if s.len() > 0 && s.last().0@ != k {
        lemma_map_key_has_entry(s.drop_last(), k);
        let j = choose|j: int| 0 <= j < s.drop_last().len() && (#[trigger] s.drop_last()[j]).0@ == k;
        assert(s[j] == s.drop_last()[j]);
    } else if s.len() > 0 {
        assert(s[s.len() - 1].0@ == k);
    }
}

/// No two entries of the list have the same key.
pub open spec fn keys_distinct<V>(s: Seq<(String, V)>) -> bool {
    forall|i: int, j: int| 0 <= i < j < s.len() ==> (#[trigger] s[i]).0@ != (#[trigger] s[j]).0@
}

/// A list whose keys are distinct denotes a map with one key per entry.
pub proof fn lemma_distinct_keys_len<V>(s: Seq<(String, V)>)
    requires
        keys_distinct(s),
    ensures
        assoc_map(s).dom().finite(),
        assoc_map(s).dom().len() == s.len(),
        s.len() == 1 ==> assoc_map(s).dom() == set![s[0].0@],
    decreases s.len(),
{
    if s.len() > 0 {
        let t = s.drop_last();
        assert(keys_distinct(t)) by {
            assert forall|i: int, j: int| 0 <= i < j < t.len() implies (#[trigger] t[i]).0@ != (#[trigger] t[j]).0@ by {
                assert(t[i] == s[i] && t[j] == s[j]);
            }
        }
        lemma_distinct_keys_len(t);
        assert(absent_from(t, 0, s.last().0@)) by {
            assert forall|j: int| 0 <= j < t.len() implies (#[trigger] t[j]).0@ != s.last().0@ by {
                assert(t[j] == s[j]);
                assert(s[s.len() - 1] == s.last());
            }
        }
        lemma_absent_all(t, s.last().0@);
        assert(assoc_map(s).dom() =~= assoc_map(t).dom().insert(s.last().0@));
        if s.len() == 1 {
            assert(assoc_map(t).dom() =~= Set::<Seq<char>>::empty());
            assert(s.last() == s[0]);
        }
    } else {
        assert(assoc_map(s).dom() =~= Set::<Seq<char>>::empty());
    }
}

/// A map from strings to values, as an association list in insertion order.
#[derive(Debug)]
pub struct StrMap<V> {
    items: Vec<(String, V)>,
}

impl<V> StrMap<V> {
    /// The entries in insertion order.
    pub closed spec fn entries(&self) -> Seq<(String, V)> {
        self.items@
    }

    /// The map that the entries denote.
    pub open spec fn map(&self) -> Map<Seq<char>, V> {
        assoc_map(self.entries())
    }

    /// Creates an empty map.
    pub fn new() -> (r: Self)
        ensures
            r.map() == Map::<Seq<char>, V>::empty(),
            r.entries().len() == 0,
            keys_distinct(r.entries()),
    {
        StrMap { items: Vec::new() }
    }

    /// The entries, in order of first insertion.
    pub fn into_entries(self) -> (r: Vec<(String, V)>)
        ensures
            r@ == self.entries(),
    {
        self.items
    }

    /// The number of entries.
    pub fn len(&self) -> (r: usize)
        ensures
            r == self.entries().len(),
    {
        self.items.len()
    }

    /// The key of the entry at `i`.
    pub fn key_at(&self, i: usize) -> (r: &String)
        requires
            i < self.entries().len(),
        ensures
            *r == self.entries()[i as int].0,
    {
        &self.items[i].0
    }

    /// The value of the entry at `i`.
    pub fn value_at(&self, i: usize) -> (r: &V)
        requires
            i < self.entries().len(),
        ensures
            *r == self.entries()[i as int].1,
    {
        &self.items[i].1
    }

    /// The index of the last entry whose key is `key`.
    fn find(&self, key: &str) -> (r: Option<usize>)
        ensures
            match r {
                Some(i) => i < self.entries().len() && self.entries()[i as int].0@ == key@
                    && absent_from(self.entries(), i + 1, key@),
                None => absent_from(self.entries(), 0, key@),
            },
    {
        let mut i = self.items.len();
        while i > 0
            invariant
                i <= self.items@.len(),
                absent_from(self.items@, i as int, key@),
            decreases i,
        {
            let k = &self.items[i - 1].0;
            if crate::text::str_eq(k.as_str(), key) {
                return Some(i - 1);
            }
            i = i - 1;
        }
        None
    }

    /// The value at `key`, if any.
    pub fn get(&self, key: &str) -> (r: Option<&V>)
        ensures
            match r {
                Some(v) => self.map().contains_key(key@) && *v == self.map()[key@],
                None => !self.map().contains_key(key@),
            },
    {
        match self.find(key) {
            Some(i) => {
                proof {
                    lemma_last_occurrence(self.items@, i as int);
                }
                Some(&self.items[i].1)
            },
            None => {
                proof {
                    lemma_absent_all(self.items@, key@);
                }
                None
            },
        }
    }

    /// Whether `key` has a value.
    pub fn contains_key(&self, key: &str) -> (r: bool)
        ensures
            r == self.map().contains_key(key@),
    {
        self.get(key).is_some()
    }

    /// Sets the value at `key`, replacing any earlier value in place.
    pub fn insert(&mut self, key: String, value: V)
        ensures
            final(self).map() == old(self).map().insert(key@, value),
            old(self).map().contains_key(key@) ==> final(self).entries().len() == old(
                self,
            ).entries().len(),
            !old(self).map().contains_key(key@) ==> final(self).entries() == old(
                self,
            ).entries().push((key, value)),
            keys_distinct(old(self).entries()) ==> keys_distinct(final(self).entries()),
    {
        match self.find(key.as_str()) {
            Some(i) => {
                proof {
                    lemma_last_occurrence(self.items@, i as int);
                    lemma_update_last(self.items@, i as int, (key, value));
                }
                let ghost pre = self.items@;
                self.items.set(i, (key, value));
                proof {
                    if keys_distinct(pre) {
                        assert forall|a: int, b: int| 0 <= a < b < self.items@.len()
                            implies (#[trigger] self.items@[a]).0@ != (#[trigger] self.items@[b]).0@ by {
                            assert(pre[a].0@ != pre[b].0@);
                        }
                    }
                }
            },
            None => {
                proof {
                    lemma_absent_all(self.items@, key@);
                }
                let ghost pre = self.items@;
                self.items.push((key, value));
                assert(self.items@.drop_last() =~= pre);
                proof {
                    if keys_distinct(pre) {
                        assert forall|a: int, b: int| 0 <= a < b < self.items@.len()
                            implies (#[trigger] self.items@[a]).0@ != (#[trigger] self.items@[b]).0@ by {
                            if b < pre.len() {
                                assert(pre[a].0@ != pre[b].0@);
                            } else {
                                assert(self.items@[a] == pre[a]);
                            }
                        }
                    }
                }
            },
        }
    }
}

} // verus!
