//! An insertion-ordered map from strings to values, kept in a vector.

use crate::text::str_eq;
use vstd::prelude::*;

verus! {

/// One key with its value.
pub struct Entry<V> {
    pub key: String,
    pub value: V,
}

/// A map keyed by strings that remembers the order in which keys arrived.
///
/// No key occurs twice. Lookups walk the entries in order, so the table is
/// meant for the small collections a proxy holds: services, endpoints, client
/// keys.
pub struct Table<V> {
    entries: Vec<Entry<V>>,
}

/// No key occurs twice among `entries`.
pub open spec fn distinct_keys<V>(entries: Seq<Entry<V>>) -> bool {
    forall|i: int, j: int| 0 <= i < j < entries.len() ==> entries[i].key@ != entries[j].key@
}

impl<V> Table<V> {
    /// No key occurs twice.
    #[verifier::type_invariant]
    pub closed spec fn wf(&self) -> bool {
        distinct_keys(self.entries@)
    }

    /// The keys in insertion order.
    pub closed spec fn keys(&self) -> Seq<Seq<char>> {
        Seq::new(self.entries@.len(), |i: int| self.entries@[i].key@)
    }

    /// The values, aligned with `keys`.
    pub closed spec fn values(&self) -> Seq<V> {
        Seq::new(self.entries@.len(), |i: int| self.entries@[i].value)
    }

    /// The table as a mathematical map.
    pub open spec fn view(&self) -> Map<Seq<char>, V> {
        Map::new(
            |k: Seq<char>| self.keys().contains(k),
            |k: Seq<char>| self.values()[self.keys().index_of(k)],
        )
    }

    /// Keys and values have one length, and the keys are pairwise distinct.
    pub proof fn lemma_shape(&self)
        requires
            self.wf(),
        ensures
            self.keys().len() == self.values().len(),
            self.keys().no_duplicates(),
    {
    }

    /// The entry at position `i` is what the map holds under the key at `i`.
    pub proof fn lemma_at(&self, i: int)
        requires
            self.wf(),
            0 <= i < self.keys().len(),
        ensures
            self@.contains_key(self.keys()[i]),
            self@[self.keys()[i]] == self.values()[i],
            self.keys().index_of(self.keys()[i]) == i,
    {
        let k = self.keys()[i];
        assert(self.keys().contains(k));
        let j = self.keys().index_of(k);
        assert(0 <= j < self.keys().len() && self.keys()[j] == k);
        if j < i {
            assert(self.entries@[j].key@ != self.entries@[i].key@);
        } else if i < j {
            assert(self.entries@[i].key@ != self.entries@[j].key@);
        }
    }

    pub fn new() -> (t: Self)
        ensures
            t.keys() == Seq::<Seq<char>>::empty(),
            t.values() == Seq::<V>::empty(),
            t@ == Map::<Seq<char>, V>::empty(),
    {
        let t = Table { entries: Vec::new() };
        assert(t.keys() =~= Seq::<Seq<char>>::empty());
        assert(t.values() =~= Seq::<V>::empty());
        assert(t@ =~= Map::<Seq<char>, V>::empty());
        t
    }

    pub fn len(&self) -> (n: usize)
        ensures
            n == self.keys().len(),
            n == self.values().len(),
    {
        self.entries.len()
    }

    /// Where `key` sits, if it is present.
    pub fn position(&self, key: &str) -> (at: Option<usize>)
        ensures
            match at {
                Some(i) => i < self.keys().len() && self.keys()[i as int] == key@
                    && self.keys().index_of(key@) == i,
                None => !self.keys().contains(key@),
            },
            at is Some <==> self@.contains_key(key@),
    {
        let mut i: usize = 0;
        while i < self.entries.len()
            invariant
                i <= self.entries@.len(),
                forall|j: int| 0 <= j < i ==> self.entries@[j].key@ != key@,
            decreases self.entries@.len() - i,
        {
            if str_eq(self.entries[i].key.as_str(), key) {
                proof {
                    use_type_invariant(self);
                    assert(self.keys()[i as int] == key@);
                    self.lemma_at(i as int);
                }
                return Some(i);
            }
            i += 1;
        }
        None
    }

    pub fn contains_key(&self, key: &str) -> (present: bool)
        ensures
            present == self@.contains_key(key@),
    {
        self.position(key).is_some()
    }

    /// The key at position `i`.
    pub fn key_at(&self, i: usize) -> (key: &String)
        requires
            i < self.keys().len(),
        ensures
            key@ == self.keys()[i as int],
    {
        &self.entries[i].key
    }

    /// The value at position `i`.
    pub fn value_at(&self, i: usize) -> (value: &V)
        requires
            i < self.values().len(),
        ensures
            *value == self.values()[i as int],
    {
        &self.entries[i].value
    }

    pub fn get(&self, key: &str) -> (found: Option<&V>)
        ensures
            found == (if self@.contains_key(key@) {
                Some(&self@[key@])
            } else {
                None
            }),
    {
        match self.position(key) {
            Some(i) => Some(&self.entries[i].value),
            None => None,
        }
    }

    /// Puts `value` under `key`. A key that is already present keeps its
    /// place in the order; a new key goes to the end.
    pub fn insert(&mut self, key: &str, value: V)
        ensures
            final(self)@ == old(self)@.insert(key@, value),
            old(self)@.contains_key(key@) ==> final(self).keys() == old(self).keys()
                && final(self).values() == old(self).values().update(
                old(self).keys().index_of(key@),
                value,
            ),
            !old(self)@.contains_key(key@) ==> final(self).keys() == old(self).keys().push(key@)
                && final(self).values() == old(self).values().push(value),
    {
        proof {
            use_type_invariant(&*self);
        }
        let at = self.position(key);
        let mut entries: Vec<Entry<V>> = Vec::new();
        std::mem::swap(&mut entries, &mut self.entries);
        let ghost before = entries@;
        let owned = key.to_owned();
        match at {
            Some(i) => {
                entries.set(i, Entry { key: owned, value });
                assert(distinct_keys(entries@)) by {
                    assert forall|a: int, b: int| 0 <= a < b < entries@.len() implies entries@[a].key@
                        != entries@[b].key@ by {
                        assert(before[a].key@ != before[b].key@);
                    }
                }
            },
            None => {
                entries.push(Entry { key: owned, value });
                assert(distinct_keys(entries@)) by {
                    assert forall|a: int, b: int| 0 <= a < b < entries@.len() implies entries@[a].key@
                        != entries@[b].key@ by {
                        if b == before.len() {
                            assert(old(self).keys()[a] == before[a].key@);
                        } else {
                            assert(before[a].key@ != before[b].key@);
                        }
                    }
                }
            },
        }
        self.entries = entries;
        proof {
            if at is Some {
                assert(self.keys() =~= old(self).keys());
                assert(self.values() =~= old(self).values().update(
                    old(self).keys().index_of(key@),
                    value,
                ));
            } else {
                assert(self.keys() =~= old(self).keys().push(key@));
                assert(self.values() =~= old(self).values().push(value));
            }
            lemma_insert_view(*old(self), *self, key@, value);
        }
    }

    /// Takes out the entry at position `i`. The other keys keep their order.
    pub fn remove_at(&mut self, i: usize) -> (taken: Entry<V>)
        requires
            i < old(self).keys().len(),
        ensures
            taken.key@ == old(self).keys()[i as int],
            taken.value == old(self).values()[i as int],
            final(self)@ == old(self)@.remove(old(self).keys()[i as int]),
            final(self).keys() == old(self).keys().remove(i as int),
            final(self).values() == old(self).values().remove(i as int),
    {
        proof {
            use_type_invariant(&*self);
        }
        let mut entries: Vec<Entry<V>> = Vec::new();
        std::mem::swap(&mut entries, &mut self.entries);
        let ghost before = entries@;
        let entry = entries.remove(i);
        assert(distinct_keys(entries@)) by {
            assert forall|a: int, b: int| 0 <= a < b < entries@.len() implies entries@[a].key@
                != entries@[b].key@ by {
                let a0 = if a < i { a } else { a + 1 };
                let b0 = if b < i { b } else { b + 1 };
                assert(before[a0].key@ != before[b0].key@);
            }
        }
        self.entries = entries;
        proof {
            lemma_remove_view(*old(self), *self, i as int);
        }
        entry
    }

    /// Takes `key` out, with its value. The other keys keep their order.
    pub fn remove(&mut self, key: &str) -> (taken: Option<V>)
        ensures
            final(self)@ == old(self)@.remove(key@),
            taken == (if old(self)@.contains_key(key@) {
                Some(old(self)@[key@])
            } else {
                None
            }),
            old(self)@.contains_key(key@) ==> final(self).keys() == old(self).keys().remove(
                old(self).keys().index_of(key@),
            ) && final(self).values() == old(self).values().remove(
                old(self).keys().index_of(key@),
            ),
            !old(self)@.contains_key(key@) ==> final(self).keys() == old(self).keys()
                && final(self).values() == old(self).values(),
    {
        proof {
            use_type_invariant(&*self);
        }
        match self.position(key) {
            Some(i) => {
                let mut entries: Vec<Entry<V>> = Vec::new();
                std::mem::swap(&mut entries, &mut self.entries);
                let ghost before = entries@;
                let entry = entries.remove(i);
                assert(distinct_keys(entries@)) by {
                    assert forall|a: int, b: int| 0 <= a < b < entries@.len() implies entries@[a].key@
                        != entries@[b].key@ by {
                        let a0 = if a < i { a } else { a + 1 };
                        let b0 = if b < i { b } else { b + 1 };
                        assert(before[a0].key@ != before[b0].key@);
                    }
                }
                self.entries = entries;
                proof {
                    lemma_remove_view(*old(self), *self, i as int);
                }
                Some(entry.value)
            },
            None => {
                assert(self@ =~= old(self)@.remove(key@));
                None
            },
        }
    }
}

/// Overwriting or appending one entry is `Map::insert` on the views.
proof fn lemma_insert_view<V>(before: Table<V>, after: Table<V>, key: Seq<char>, value: V)
    requires
        before.wf(),
        after.wf(),
        before.keys().contains(key) ==> after.keys() == before.keys() && after.values()
            == before.values().update(before.keys().index_of(key), value),
        !before.keys().contains(key) ==> after.keys() == before.keys().push(key) && after.values()
            == before.values().push(value),
    ensures
        after@ == before@.insert(key, value),
{
    assert forall|k: Seq<char>| #[trigger] after@.contains_key(k) <==> before@.insert(
        key,
        value,
    ).contains_key(k) by {
        if before.keys().contains(key) {
        } else {
            if before.keys().contains(k) {
                let i = before.keys().index_of(k);
                assert(after.keys()[i] == k);
            }
            assert(after.keys()[before.keys().len() as int] == key);
        }
    }
    assert forall|k: Seq<char>| #[trigger] after@.contains_key(k) implies after@[k] == before@.insert(
        key,
        value,
    )[k] by {
        let i = after.keys().index_of(k);
        after.lemma_at(i);
        if before.keys().contains(key) {
            let at = before.keys().index_of(key);
            before.lemma_at(at);
            before.lemma_at(i);
        } else {
            if k != key {
                assert(i < before.keys().len());
                before.lemma_at(i);
            } else {
                after.lemma_at(before.keys().len() as int);
            }
        }
    }
    assert(after@ =~= before@.insert(key, value));
}

/// Dropping the entry at `i` is `Map::remove` on the views.
proof fn lemma_remove_view<V>(before: Table<V>, after: Table<V>, i: int)
    requires
        before.wf(),
        after.wf(),
        0 <= i < before.entries@.len(),
        after.entries@ == before.entries@.remove(i),
    ensures
        after@ == before@.remove(before.keys()[i]),
        after.keys() == before.keys().remove(i),
        after.values() == before.values().remove(i),
        before@[before.keys()[i]] == before.entries@[i].value,
{
    let key = before.keys()[i];
    before.lemma_at(i);
    assert(after.keys() =~= before.keys().remove(i));
    assert(after.values() =~= before.values().remove(i));
    assert forall|k: Seq<char>| #[trigger] after@.contains_key(k) <==> before@.remove(
        key,
    ).contains_key(k) by {
        if after.keys().contains(k) {
            let j = after.keys().index_of(k);
            let j0 = if j < i { j } else { j + 1 };
            assert(before.keys()[j0] == k);
            before.lemma_at(j0);
        }
        if before.keys().contains(k) && k != key {
            let j0 = before.keys().index_of(k);
            let j = if j0 < i { j0 } else { j0 - 1 };
            assert(after.keys()[j] == k);
        }
    }
    assert forall|k: Seq<char>| #[trigger] after@.contains_key(k) implies after@[k] == before@.remove(
        key,
    )[k] by {
        let j = after.keys().index_of(k);
        after.lemma_at(j);
        let j0 = if j < i { j } else { j + 1 };
        assert(before.keys()[j0] == k);
        before.lemma_at(j0);
    }
    assert(after@ =~= before@.remove(key));
}

} // verus!
