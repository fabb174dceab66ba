//! A table from keys to values, in order of insertion.

use crate::identity::RnsAddress;
use crate::wire;
use vstd::prelude::*;

verus! {

/// What a table can be keyed by: two keys are the same where their views are.
pub trait Key: View + Sized {
    /// Whether two keys are the same.
    fn same_key(&self, other: &Self) -> (r: bool)
        ensures
            r <==> self@ == other@,
    ;
}

impl Key for Vec<u8> {
    fn same_key(&self, other: &Self) -> (r: bool) {
        wire::same_bytes(self.as_slice(), other.as_slice())
    }
}

impl Key for RnsAddress {
    fn same_key(&self, other: &Self) -> (r: bool) {
        self.same(other)
    }
}

/// Where `key` stands among some entries.
pub open spec fn place<K: Key, V>(entries: Seq<(K, V)>, key: K::V) -> int {
    choose|i: int| 0 <= i < entries.len() && #[trigger] entries[i].0@ == key
}

/// Whether `key` stands among some entries.
pub open spec fn listed<K: Key, V>(entries: Seq<(K, V)>, key: K::V) -> bool {
    exists|i: int| 0 <= i < entries.len() && #[trigger] entries[i].0@ == key
}

/// The map that some entries make.
pub open spec fn contents<K: Key, V>(entries: Seq<(K, V)>) -> Map<K::V, V> {
    Map::new(|k: K::V| listed(entries, k), |k: K::V| entries[place(entries, k)].1)
}

/// Whether no key occurs twice.
pub open spec fn distinct<K: Key, V>(entries: Seq<(K, V)>) -> bool {
    forall|i: int, j: int|
        0 <= i < j < entries.len() ==> (#[trigger] entries[i]).0@ != (#[trigger] entries[j]).0@
}

/// With distinct keys, an entry is what the map has under its key.
pub proof fn lemma_entry<K: Key, V>(entries: Seq<(K, V)>, i: int)
    requires
        distinct(entries),
        0 <= i < entries.len(),
    ensures
        listed(entries, entries[i].0@),
        place(entries, entries[i].0@) == i,
        contents(entries).dom().contains(entries[i].0@),
        contents(entries)[entries[i].0@] == entries[i].1,
{
    let k = entries[i].0@;
    assert(entries[i].0@ == k);
    let j = place(entries, k);
    assert(0 <= j < entries.len() && entries[j].0@ == k);
    if j < i {
        assert(entries[j].0@ != entries[i].0@);
    } else if i < j {
        assert(entries[i].0@ != entries[j].0@);
    }
}

/// A new key at the end adds its value to the map.
pub proof fn lemma_push<K: Key, V>(entries: Seq<(K, V)>, e: (K, V))
    requires
        distinct(entries),
        !listed(entries, e.0@),
    ensures
        distinct(entries.push(e)),
        contents(entries.push(e)) == contents(entries).insert(e.0@, e.1),
{
    let after = entries.push(e);
    assert(distinct(after)) by {
        assert forall|i: int, j: int| 0 <= i < j < after.len() implies (#[trigger] after[i]).0@ != (
        #[trigger] after[j]).0@ by {
            if j == entries.len() {
                assert(entries[i].0@ != e.0@);
            } else {
                assert(entries[i].0@ != entries[j].0@);
            }
        }
    }
    assert forall|k: K::V| contents(after).dom().contains(k) <==> #[trigger] contents(
        entries,
    ).insert(e.0@, e.1).dom().contains(k) by {
        if listed(after, k) {
            let i = place(after, k);
            if i < entries.len() {
                assert(entries[i].0@ == k);
            }
        }
        if listed(entries, k) {
            let i = place(entries, k);
            assert(after[i].0@ == k);
        }
        if k == e.0@ {
            assert(after[entries.len() as int].0@ == k);
        }
    }
    assert forall|k: K::V| contents(after).dom().contains(k) implies #[trigger] contents(after)[k]
        == contents(entries).insert(e.0@, e.1)[k] by {
        let i = place(after, k);
        lemma_entry(after, i);
        if i < entries.len() {
            lemma_entry(entries, i);
            assert(entries[i].0@ == k);
        }
    }
    assert(contents(after) =~= contents(entries).insert(e.0@, e.1));
}

/// Another value at the place of a key replaces its value in the map.
pub proof fn lemma_update<K: Key, V>(entries: Seq<(K, V)>, i: int, e: (K, V))
    requires
        distinct(entries),
        0 <= i < entries.len(),
        entries[i].0@ == e.0@,
    ensures
        distinct(entries.update(i, e)),
        contents(entries.update(i, e)) == contents(entries).insert(e.0@, e.1),
{
    let after = entries.update(i, e);
    assert(distinct(after)) by {
        assert forall|a: int, b: int| 0 <= a < b < after.len() implies (#[trigger] after[a]).0@ != (
        #[trigger] after[b]).0@ by {
            assert(entries[a].0@ != entries[b].0@);
        }
    }
    assert forall|k: K::V| contents(after).dom().contains(k) <==> #[trigger] contents(
        entries,
    ).insert(e.0@, e.1).dom().contains(k) by {
        if listed(after, k) {
            let j = place(after, k);
            assert(entries[j].0@ == k);
        }
        if listed(entries, k) {
            let j = place(entries, k);
            assert(after[j].0@ == k);
        }
        if k == e.0@ {
            assert(after[i].0@ == k);
        }
    }
    assert forall|k: K::V| contents(after).dom().contains(k) implies #[trigger] contents(after)[k]
        == contents(entries).insert(e.0@, e.1)[k] by {
        let j = place(after, k);
        lemma_entry(after, j);
        lemma_entry(entries, j);
        lemma_entry(after, i);
    }
    assert(contents(after) =~= contents(entries).insert(e.0@, e.1));
}

/// Taking an entry out removes its key from the map.
pub proof fn lemma_remove<K: Key, V>(entries: Seq<(K, V)>, i: int)
    requires
        distinct(entries),
        0 <= i < entries.len(),
    ensures
        distinct(entries.remove(i)),
        contents(entries.remove(i)) == contents(entries).remove(entries[i].0@),
{
    let after = entries.remove(i);
    let key = entries[i].0@;
    assert(distinct(after)) by {
        assert forall|a: int, b: int| 0 <= a < b < after.len() implies (#[trigger] after[a]).0@ != (
        #[trigger] after[b]).0@ by {
            let a2 = if a < i {
                a
            } else {
                a + 1
            };
            let b2 = if b < i {
                b
            } else {
                b + 1
            };
            assert(entries[a2].0@ != entries[b2].0@);
        }
    }
    assert forall|k: K::V| contents(after).dom().contains(k) <==> #[trigger] contents(
        entries,
    ).remove(key).dom().contains(k) by {
        if listed(after, k) {
            let j = place(after, k);
            let j2 = if j < i {
                j
            } else {
                j + 1
            };
            assert(entries[j2].0@ == k);
            lemma_entry(entries, j2);
            lemma_entry(entries, i);
        }
        if listed(entries, k) && k != key {
            let j = place(entries, k);
            let j2 = if j < i {
                j
            } else {
                j - 1
            };
            assert(after[j2].0@ == k);
        }
    }
    assert forall|k: K::V| contents(after).dom().contains(k) implies #[trigger] contents(after)[k]
        == contents(entries).remove(key)[k] by {
        let j = place(after, k);
        let j2 = if j < i {
            j
        } else {
            j + 1
        };
        lemma_entry(after, j);
        assert(entries[j2].0@ == k);
        lemma_entry(entries, j2);
    }
    assert(contents(after) =~= contents(entries).remove(key));
}

/// The map of distinct entries has as many keys as there are entries.
pub proof fn lemma_size<K: Key, V>(entries: Seq<(K, V)>)
    requires
        distinct(entries),
    ensures
        contents(entries).dom().finite(),
        contents(entries).dom().len() == entries.len(),
    decreases entries.len(),
{
    if entries.len() == 0 {
        assert(contents(entries).dom() =~= Set::empty());
    } else {
        let before = entries.drop_last();
        let e = entries.last();
        assert(distinct(before)) by {
            assert forall|i: int, j: int| 0 <= i < j < before.len() implies (#[trigger] before[i]).0@
                != (#[trigger] before[j]).0@ by {
                assert(entries[i].0@ != entries[j].0@);
            }
        }
        assert(!listed(before, e.0@)) by {
            if listed(before, e.0@) {
                let i = place(before, e.0@);
                assert(entries[i].0@ != entries[entries.len() - 1].0@);
            }
        }
        assert(before.push(e) =~= entries);
        lemma_size(before);
        lemma_push(before, e);
        assert(contents(entries).dom() =~= contents(before).dom().insert(e.0@));
    }
}

/// A table from keys to values.
pub struct Table<K: Key, V> {
    pub entries: Vec<(K, V)>,
}

impl<K: Key, V> View for Table<K, V> {
    type V = Map<K::V, V>;

    open spec fn view(&self) -> Map<K::V, V> {
        contents(self.entries@)
    }
}

impl<K: Key, V> Table<K, V> {
    /// No key occurs twice.
    pub open spec fn wf(&self) -> bool {
        distinct(self.entries@)
    }

    /// An empty table.
    pub fn new() -> (t: Self)
        ensures
            t.wf(),
            t@ == Map::<K::V, V>::empty(),
            t.entries@.len() == 0,
    {
        let t = Table { entries: Vec::new() };
        assert(t@ =~= Map::<K::V, V>::empty());
        t
    }

    /// Where the entry of `key` stands.
    pub fn find(&self, key: &K) -> (r: Option<usize>)
        requires
            self.wf(),
        ensures
            (match r {
                Some(i) => i < self.entries@.len() && self.entries@[i as int].0@ == key@
                    && self@.dom().contains(key@) && self@[key@] == self.entries@[i as int].1,
                None => !self@.dom().contains(key@) && !listed(self.entries@, key@),
            }),
    {
        let mut i: usize = 0;
        while i < self.entries.len()
            invariant
                self.wf(),
                i <= self.entries@.len(),
                forall|j: int| 0 <= j < i ==> (#[trigger] self.entries@[j]).0@ != key@,
            decreases self.entries@.len() - i,
        {
            if self.entries[i].0.same_key(key) {
                proof {
                    lemma_entry(self.entries@, i as int);
                }
                return Some(i);
            }
            i = i + 1;
        }
        None
    }

    /// The value under `key`.
    pub fn get(&self, key: &K) -> (r: Option<&V>)
        requires
            self.wf(),
        ensures
            (match r {
                Some(v) => self@.dom().contains(key@) && *v == self@[key@],
                None => !self@.dom().contains(key@),
            }),
    {
        match self.find(key) {
            Some(i) => Some(&self.entries[i].1),
            None => None,
        }
    }

    /// Whether there is a value under `key`.
    pub fn contains(&self, key: &K) -> (r: bool)
        requires
            self.wf(),
        ensures
            r <==> self@.dom().contains(key@),
    {
        self.find(key).is_some()
    }

    /// Puts `value` under `key`, and returns the value that was there.
    pub fn insert(&mut self, key: K, value: V) -> (previous: Option<V>)
        requires
            old(self).wf(),
        ensures
            final(self).wf(),
            final(self)@ == old(self)@.insert(key@, value),
            (match previous {
                Some(v) => old(self)@.dom().contains(key@) && v == old(self)@[key@],
                None => !old(self)@.dom().contains(key@),
            }),
    {
        let ghost before = self.entries@;
        match self.find(&key) {
            Some(i) => {
                proof {
                    lemma_update(before, i as int, (key, value));
                }
                let (_, v) = self.entries.remove(i);
                self.entries.insert(i, (key, value));
                assert(self.entries@ =~= before.update(i as int, (key, value)));
                Some(v)
            },
            None => {
                proof {
                    lemma_push(before, (key, value));
                }
                self.entries.push((key, value));
                None
            },
        }
    }

    /// Takes the value under `key` out.
    pub fn remove(&mut self, key: &K) -> (previous: Option<V>)
        requires
            old(self).wf(),
        ensures
            final(self).wf(),
            final(self)@ == old(self)@.remove(key@),
            (match previous {
                Some(v) => old(self)@.dom().contains(key@) && v == old(self)@[key@],
                None => !old(self)@.dom().contains(key@) && *final(self) == *old(self),
            }),
    {
        match self.find(key) {
            Some(i) => {
                proof {
                    lemma_remove(self.entries@, i as int);
                }
                let (_, v) = self.entries.remove(i);
                Some(v)
            },
            None => {
                assert(self@ =~= self@.remove(key@));
                None
            },
        }
    }

    /// How many keys there are.
    pub fn len(&self) -> (n: usize)
        requires
            self.wf(),
        ensures
            n == self@.dom().len(),
            n == self.entries@.len(),
            self@.dom().finite(),
    {
        proof {
            lemma_size(self.entries@);
        }
        self.entries.len()
    }

    /// Whether there is no key.
    pub fn is_empty(&self) -> (r: bool)
        requires
            self.wf(),
        ensures
            r <==> self@.dom().len() == 0,
    {
        self.len() == 0
    }
}

} // verus!
