//! A least-recently-used cache of Data.

use crate::clock;
use crate::icn::data::Data;
use crate::icn::name;
use crate::icn::name::{Name, NameView};
use crate::wire;
use std::num::NonZeroUsize;
use vstd::prelude::*;

verus! {

/// Data in a content store, with the time of its insertion in Unix seconds.
#[derive(Debug, Clone)]
pub struct CachedData {
    pub data: Data,
    pub inserted_at: u64,
}

/// The parts of a name: its components and its content hash.
pub type NameParts = (Vec<Vec<u8>>, Option<[u8; 32]>);

/// The name that some parts make.
pub open spec fn parts_view(k: NameParts) -> NameView {
    (wire::all_bytes(k.0@), wire::key_view(k.1))
}

/// Entries of a cache, the most recently used first.
pub type Entries = Seq<(NameView, CachedData)>;

/// Whether a name is among some entries.
pub open spec fn stored(entries: Entries, n: NameView) -> bool {
    exists|i: int| 0 <= i < entries.len() && (#[trigger] entries[i]).0 == n
}

/// Where a name is among some entries.
pub open spec fn place(entries: Entries, n: NameView) -> int {
    choose|i: int| 0 <= i < entries.len() && (#[trigger] entries[i]).0 == n
}

/// Whether no name occurs twice.
pub open spec fn distinct(entries: Entries) -> bool {
    forall|i: int, j: int|
        0 <= i < j < entries.len() ==> (#[trigger] entries[i]).0 != (#[trigger] entries[j]).0
}

/// With one entry moved to the front.
pub open spec fn touched(entries: Entries, i: int) -> Entries {
    seq![entries[i]] + entries.remove(i)
}

/// After a use of `n`.
pub open spec fn used(entries: Entries, n: NameView) -> Entries {
    if stored(entries, n) {
        touched(entries, place(entries, n))
    } else {
        entries
    }
}

/// After `c` was put in under `n`: it comes first. An entry of that name is replaced;
/// of a full cache the last entry leaves.
pub open spec fn pushed(entries: Entries, cap: nat, n: NameView, c: CachedData) -> Entries {
    seq![(n, c)] + (if stored(entries, n) {
        entries.remove(place(entries, n))
    } else if entries.len() == cap {
        entries.drop_last()
    } else {
        entries
    })
}

/// The entry that leaves when something is put in under `n`.
pub open spec fn displaced(entries: Entries, cap: nat, n: NameView) -> Option<
    (NameView, CachedData),
> {
    if stored(entries, n) {
        Some(entries[place(entries, n)])
    } else if entries.len() == cap {
        Some(entries.last())
    } else {
        None
    }
}

/// What is found under `n`.
pub open spec fn found(entries: Entries, n: NameView) -> Option<CachedData> {
    if stored(entries, n) {
        Some(entries[place(entries, n)].1)
    } else {
        None
    }
}

/// The value behind a reference that may be missing.
pub open spec fn referenced(r: Option<&CachedData>) -> Option<CachedData> {
    match r {
        Some(c) => Some(*c),
        None => None,
    }
}

/// An entry that left, over byte sequences.
pub open spec fn entry_view(r: Option<(NameParts, CachedData)>) -> Option<(NameView, CachedData)> {
    match r {
        Some((k, c)) => Some((parts_view(k), c)),
        None => None,
    }
}

/// The names of some keys, in order.
pub open spec fn all_parts(v: Seq<&NameParts>) -> Seq<NameView> {
    Seq::new(v.len(), |i: int| parts_view(*v[i]))
}

/// The names of some entries, in order.
pub open spec fn names(entries: Entries) -> Seq<NameView> {
    Seq::new(entries.len(), |i: int| entries[i].0)
}

/// `lru::LruCache`.
#[verifier::external_type_specification]
#[verifier::external_body]
#[verifier::reject_recursive_types(K)]
#[verifier::reject_recursive_types(V)]
#[verifier::reject_recursive_types(S)]
pub struct ExLruCache<K, V, S>(lru::LruCache<K, V, S>);

/// `lru::DefaultHasher`.
#[verifier::external_type_specification]
#[verifier::external_body]
pub struct ExLruHasher(lru::DefaultHasher);

/// What an `lru::LruCache` holds, the most recently used entry first.
pub uninterp spec fn lru_entries(c: lru::LruCache<NameParts, CachedData>) -> Seq<
    (NameView, CachedData),
>;

/// How many entries an `lru::LruCache` was made for.
pub uninterp spec fn lru_capacity(c: lru::LruCache<NameParts, CachedData>) -> nat;

/// `lru::LruCache::new`: an empty cache for `cap` entries. It reserves room for them at
/// once, so that numbers near the size of the address space are left out.
#[verifier::external_body]
fn lru_new(cap: usize) -> (c: lru::LruCache<NameParts, CachedData>)
    requires
        0 < cap <= usize::MAX / 128,
    ensures
        lru_entries(c) == Seq::<(NameView, CachedData)>::empty(),
        lru_capacity(c) == cap,
{
    lru::LruCache::new(NonZeroUsize::new(cap).expect("not zero"))
}

/// `lru::LruCache::get`: the value under a key, which is then the most recently used.
#[verifier::external_body]
fn lru_get<'a>(c: &'a mut lru::LruCache<NameParts, CachedData>, k: &NameParts) -> (r: Option<
    &'a CachedData,
>)
    ensures
        referenced(r) == found(lru_entries(*old(c)), parts_view(*k)),
        lru_entries(*final(c)) == used(lru_entries(*old(c)), parts_view(*k)),
        lru_capacity(*final(c)) == lru_capacity(*old(c)),
{
    c.get(k)
}

/// `lru::LruCache::peek`: the value under a key; the order stays.
#[verifier::external_body]
fn lru_peek<'a>(c: &'a lru::LruCache<NameParts, CachedData>, k: &NameParts) -> (r: Option<
    &'a CachedData,
>)
    ensures
        referenced(r) == found(lru_entries(*c), parts_view(*k)),
{
    c.peek(k)
}

/// `lru::LruCache::push`: puts a value in under a key, and returns the entry that
/// leaves: the former one of that key, or of a full cache the least recently used one.
#[verifier::external_body]
fn lru_push(c: &mut lru::LruCache<NameParts, CachedData>, k: NameParts, v: CachedData) -> (r:
    Option<(NameParts, CachedData)>)
    ensures
        entry_view(r) == displaced(lru_entries(*old(c)), lru_capacity(*old(c)), parts_view(k)),
        lru_entries(*final(c)) == pushed(
            lru_entries(*old(c)),
            lru_capacity(*old(c)),
            parts_view(k),
            v,
        ),
        lru_capacity(*final(c)) == lru_capacity(*old(c)),
{
    c.push(k, v)
}

/// `lru::LruCache::contains`.
#[verifier::external_body]
fn lru_contains(c: &lru::LruCache<NameParts, CachedData>, k: &NameParts) -> (r: bool)
    ensures
        r == stored(lru_entries(*c), parts_view(*k)),
{
    c.contains(k)
}

/// `lru::LruCache::len`.
#[verifier::external_body]
fn lru_len(c: &lru::LruCache<NameParts, CachedData>) -> (n: usize)
    ensures
        n == lru_entries(*c).len(),
{
    c.len()
}

/// `lru::LruCache::cap`.
#[verifier::external_body]
fn lru_cap(c: &lru::LruCache<NameParts, CachedData>) -> (n: usize)
    ensures
        n == lru_capacity(*c),
{
    c.cap().get()
}

/// `lru::LruCache::iter`: the keys, the most recently used first.
#[verifier::external_body]
fn lru_keys<'a>(c: &'a lru::LruCache<NameParts, CachedData>) -> (keys: Vec<&'a NameParts>)
    ensures
        all_parts(keys@) == names(lru_entries(*c)),
{
    c.iter().map(|(k, _)| k).collect()
}

/// Moving an entry to the front keeps the names distinct.
proof fn lemma_touched(entries: Entries, i: int)
    requires
        distinct(entries),
        0 <= i < entries.len(),
    ensures
        distinct(touched(entries, i)),
        touched(entries, i).len() == entries.len(),
{
    let after = touched(entries, i);
    assert forall|a: int, b: int| 0 <= a < b < after.len() implies (#[trigger] after[a]).0 != (
    #[trigger] after[b]).0 by {
        let b2 = if b - 1 < i {
            b - 1
        } else {
            b
        };
        let a2 = if a == 0 {
            i
        } else if a - 1 < i {
            a - 1
        } else {
            a
        };
        assert(after[a] == entries[a2] && after[b] == entries[b2]);
        if a2 < b2 {
            assert(entries[a2].0 != entries[b2].0);
        } else {
            assert(entries[b2].0 != entries[a2].0);
        }
    }
}

/// Where a name is stored at most once, it is where it is found.
pub proof fn lemma_place(entries: Entries, i: int)
    requires
        distinct(entries),
        0 <= i < entries.len(),
    ensures
        stored(entries, entries[i].0),
        place(entries, entries[i].0) == i,
{
    let j = place(entries, entries[i].0);
    assert(0 <= j < entries.len() && entries[j].0 == entries[i].0);
    if j < i {
        assert(entries[j].0 != entries[i].0);
    } else if i < j {
        assert(entries[i].0 != entries[j].0);
    }
}

/// Putting something in keeps the names distinct and the cache within its capacity.
proof fn lemma_pushed(entries: Entries, cap: nat, n: NameView, c: CachedData)
    requires
        distinct(entries),
        entries.len() <= cap,
        0 < cap,
    ensures
        distinct(pushed(entries, cap, n, c)),
        pushed(entries, cap, n, c).len() <= cap,
{
    let after = pushed(entries, cap, n, c);
    if stored(entries, n) {
        let i = place(entries, n);
        lemma_touched(entries, i);
        let t = touched(entries, i);
        assert forall|a: int, b: int| 0 <= a < b < after.len() implies (#[trigger] after[a]).0 != (
        #[trigger] after[b]).0 by {
            assert(after[a].0 == t[a].0 && after[b].0 == t[b].0);
        }
    } else {
        assert forall|a: int, b: int| 0 <= a < b < after.len() implies (#[trigger] after[a]).0 != (
        #[trigger] after[b]).0 by {
            assert(after[b] == entries[b - 1]);
            if a == 0 {
                assert(entries[b - 1].0 != n);
            } else {
                assert(after[a] == entries[a - 1]);
            }
        }
    }
}

/// Data that was put in is found again, first in the cache; every other name is found
/// as before, but for the one that left.
pub proof fn law_insert_then_get(
    entries: Entries,
    cap: nat,
    n: NameView,
    c: CachedData,
    other: NameView,
)
    requires
        distinct(entries),
        entries.len() <= cap,
        0 < cap,
    ensures
        found(pushed(entries, cap, n, c), n) == Some(c),
        other != n && !(displaced(entries, cap, n) matches Some(e) && e.0 == other) ==> found(
            pushed(entries, cap, n, c),
            other,
        ) == found(entries, other),
        displaced(entries, cap, n) matches Some(e) ==> e.0 == n || !stored(
            pushed(entries, cap, n, c),
            e.0,
        ),
{
    let after = pushed(entries, cap, n, c);
    lemma_pushed(entries, cap, n, c);
    assert(after[0] == (n, c));
    lemma_place(after, 0);
    if other != n {
        if stored(entries, other) {
            let i = place(entries, other);
            if stored(entries, n) {
                let k = place(entries, n);
                let j = if i < k {
                    i + 1
                } else {
                    i
                };
                assert(after[j] == entries[i]);
                lemma_place(after, j);
            } else if entries.len() < cap || i < entries.len() - 1 {
                assert(after[i + 1] == entries[i]);
                lemma_place(after, i + 1);
            }
        } else if stored(after, other) {
            let j = place(after, other);
            if stored(entries, n) {
                let k = place(entries, n);
                let i = if j - 1 < k {
                    j - 1
                } else {
                    j
                };
                assert(after[j] == entries[i]);
                assert(entries[i].0 == other);
            } else {
                assert(after[j] == entries[j - 1]);
                assert(entries[j - 1].0 == other);
            }
        }
    }
    if let Some((gone, _)) = displaced(entries, cap, n) {
        if stored(entries, n) {
            assert(entries[place(entries, n)].0 == n);
        } else if stored(after, gone) {
            let j = place(after, gone);
            assert(after[j] == entries[j - 1]);
            assert(entries[j - 1].0 != entries[entries.len() - 1].0);
        }
    }
}

/// A name that was just used is not the one that leaves a cache of two or more.
pub proof fn law_used_stays(entries: Entries, cap: nat, n: NameView, m: NameView, c: CachedData)
    requires
        distinct(entries),
        entries.len() <= cap,
        2 <= cap,
        stored(entries, n),
        n != m,
    ensures
        found(pushed(used(entries, n), cap, m, c), n) == found(entries, n),
{
    let i = place(entries, n);
    let t = touched(entries, i);
    lemma_touched(entries, i);
    assert(t[0] == entries[i]);
    lemma_place(t, 0);
    assert(entries[i].0 == n);
    lemma_pushed(t, cap, m, c);
    let after = pushed(t, cap, m, c);
    if stored(t, m) {
        let k = place(t, m);
        assert(t[k].0 == m);
        assert(k != 0);
        assert(after[1] == t[0]);
    } else {
        assert(after[1] == t[0]);
    }
    lemma_place(after, 1);
}

/// The entry that answers a request for `n` or a prefix of it: the longest of those
/// that are a prefix of `n`, and of several the most recently used.
pub open spec fn best_prefix(entries: Entries, n: NameView, i: int) -> bool {
    &&& 0 <= i < entries.len()
    &&& name::is_prefix(entries[i].0, n)
    &&& forall|j: int|
        0 <= j < entries.len() && name::is_prefix((#[trigger] entries[j]).0, n)
            ==> entries[j].0.0.len() <= entries[i].0.0.len()
    &&& forall|j: int|
        0 <= j < i && name::is_prefix((#[trigger] entries[j]).0, n) ==> entries[j].0.0.len()
            < entries[i].0.0.len()
}

/// Whether some entry is a prefix of `n`.
pub open spec fn any_prefix(entries: Entries, n: NameView) -> bool {
    exists|i: int| 0 <= i < entries.len() && name::is_prefix((#[trigger] entries[i]).0, n)
}

/// A least-recently-used cache of Data, keyed by name.
pub struct ContentStore {
    pub entries: lru::LruCache<NameParts, CachedData>,
    pub hits: u64,
    pub misses: u64,
}

impl ContentStore {
    /// What the store holds, the most recently used entry first.
    pub open spec fn contents(&self) -> Entries {
        lru_entries(self.entries)
    }

    /// How many entries the store can hold.
    pub open spec fn room(&self) -> nat {
        lru_capacity(self.entries)
    }

    /// No name occurs twice, and there are no more entries than the store can hold.
    pub open spec fn wf(&self) -> bool {
        &&& distinct(self.contents())
        &&& self.contents().len() <= self.room()
        &&& 0 < self.room()
    }

    /// An empty store for up to `max_entries` entries, and for one at least.
    pub fn new(max_entries: usize) -> (cs: Self)
        requires
            max_entries <= usize::MAX / 128,
        ensures
            cs.wf(),
            cs.contents() == Seq::<(NameView, CachedData)>::empty(),
            cs.room() == (if max_entries == 0 {
                1
            } else {
                max_entries as int
            }),
            cs.hits == 0,
            cs.misses == 0,
    {
        let cap: usize = if max_entries == 0 {
            1
        } else {
            max_entries
        };
        ContentStore { entries: lru_new(cap), hits: 0, misses: 0 }
    }

    /// The Data of a name, which is then the most recently used. Hits and misses are
    /// counted.
    pub fn get(&mut self, name: &Name) -> (r: Option<&Data>)
        requires
            old(self).wf(),
        ensures
            (match r {
                Some(d) => found(old(self).contents(), name@) matches Some(c) && c.data == *d,
                None => found(old(self).contents(), name@) is None,
            }),
            final(self).wf(),
            final(self).contents() == used(old(self).contents(), name@),
            final(self).room() == old(self).room(),
            final(self).hits == (if stored(old(self).contents(), name@) {
                old(self).hits.wrapping_add(1)
            } else {
                old(self).hits
            }),
            final(self).misses == (if stored(old(self).contents(), name@) {
                old(self).misses
            } else {
                old(self).misses.wrapping_add(1)
            }),
    {
        proof {
            if stored(self.contents(), name@) {
                lemma_touched(self.contents(), place(self.contents(), name@));
            }
        }
        let key: NameParts = key_of(name);
        match lru_get(&mut self.entries, &key) {
            Some(c) => {
                self.hits = self.hits.wrapping_add(1);
                Some(&c.data)
            },
            None => {
                self.misses = self.misses.wrapping_add(1);
                None
            },
        }
    }

    /// The Data with the longest name that is a prefix of `name`. The order stays; hits
    /// and misses are counted.
    pub fn get_prefix(&mut self, name: &Name) -> (r: Option<&Data>)
        requires
            old(self).wf(),
        ensures
            (match r {
                Some(d) => exists|i: int|
                    #[trigger] best_prefix(old(self).contents(), name@, i) && *d
                        == old(self).contents()[i].1.data,
                None => !any_prefix(old(self).contents(), name@),
            }),
            final(self).entries == old(self).entries,
            final(self).hits == (if any_prefix(old(self).contents(), name@) {
                old(self).hits.wrapping_add(1)
            } else {
                old(self).hits
            }),
            final(self).misses == (if any_prefix(old(self).contents(), name@) {
                old(self).misses
            } else {
                old(self).misses.wrapping_add(1)
            }),
    {
        let ghost entries = self.contents();
        let keys: Vec<&NameParts> = lru_keys(&self.entries);
        let mut best: Option<usize> = None;
        let mut i: usize = 0;
        proof {
            assert(all_parts(keys@).len() == entries.len());
        }
        while i < keys.len()
            invariant
                i <= keys@.len(),
                entries == old(self).contents(),
                all_parts(keys@) == names(entries),
                keys@.len() == entries.len(),
                (match best {
                    Some(b) => b < i && name::is_prefix(entries[b as int].0, name@) && (forall|j: int|
                        0 <= j < i && name::is_prefix((#[trigger] entries[j]).0, name@)
                            ==> entries[j].0.0.len() <= entries[b as int].0.0.len()) && (forall|
                        j: int,
                    |
                        0 <= j < b && name::is_prefix((#[trigger] entries[j]).0, name@)
                            ==> entries[j].0.0.len() < entries[b as int].0.0.len()),
                    None => forall|j: int|
                        0 <= j < i ==> !name::is_prefix((#[trigger] entries[j]).0, name@),
                }),
            decreases keys@.len() - i,
        {
            proof {
                assert(all_parts(keys@)[i as int] == names(entries)[i as int]);
            }
            if parts_are_prefix(keys[i], name) {
                match best {
                    Some(b) => {
                        proof {
                            assert(all_parts(keys@)[b as int] == names(entries)[b as int]);
                        }
                        if keys[i].0.len() > keys[b].0.len() {
                            best = Some(i);
                        }
                    },
                    None => {
                        best = Some(i);
                    },
                }
            }
            i = i + 1;
        }
        match best {
            Some(b) => {
                proof {
                    assert(best_prefix(entries, name@, b as int));
                    assert(all_parts(keys@)[b as int] == names(entries)[b as int]);
                    lemma_place(entries, b as int);
                }
                let key: &NameParts = keys[b];
                self.hits = self.hits.wrapping_add(1);
                match lru_peek(&self.entries, key) {
                    Some(c) => Some(&c.data),
                    None => None,
                }
            },
            None => {
                self.misses = self.misses.wrapping_add(1);
                None
            },
        }
    }

    /// Puts Data in at a given time. It becomes the most recently used; of a full store
    /// the least recently used leaves. What left is returned.
    pub fn insert_at(&mut self, name: Name, data: Data, now: u64) -> (r: Option<CachedData>)
        requires
            old(self).wf(),
        ensures
            final(self).wf(),
            final(self).contents() == pushed(
                old(self).contents(),
                old(self).room(),
                name@,
                (CachedData { data, inserted_at: now }),
            ),
            final(self).room() == old(self).room(),
            final(self).hits == old(self).hits,
            final(self).misses == old(self).misses,
            (match r {
                Some(c) => displaced(old(self).contents(), old(self).room(), name@) matches Some(e)
                    && e.1 == c,
                None => displaced(old(self).contents(), old(self).room(), name@) is None,
            }),
    {
        proof {
            lemma_pushed(
                self.contents(),
                self.room(),
                name@,
                CachedData { data, inserted_at: now },
            );
        }
        let key: NameParts = name.into_parts();
        match lru_push(&mut self.entries, key, CachedData { data, inserted_at: now }) {
            Some((_, c)) => Some(c),
            None => None,
        }
    }

    /// Puts Data in now. It becomes the most recently used; of a full store the least
    /// recently used leaves. What left is returned.
    pub fn insert(&mut self, name: Name, data: Data) -> (r: Option<CachedData>)
        requires
            old(self).wf(),
        ensures
            final(self).wf(),
            exists|now: u64|
                final(self).contents() == #[trigger] pushed(
                    old(self).contents(),
                    old(self).room(),
                    name@,
                    CachedData { data, inserted_at: now },
                ),
            final(self).room() == old(self).room(),
            final(self).hits == old(self).hits,
            final(self).misses == old(self).misses,
            (match r {
                Some(c) => displaced(old(self).contents(), old(self).room(), name@) matches Some(e)
                    && e.1 == c,
                None => displaced(old(self).contents(), old(self).room(), name@) is None,
            }),
    {
        let now: u64 = clock::unix_secs();
        self.insert_at(name, data, now)
    }

    /// Whether there is Data of a name.
    pub fn contains(&self, name: &Name) -> (r: bool)
        ensures
            r <==> stored(self.contents(), name@),
    {
        let key: NameParts = key_of(name);
        lru_contains(&self.entries, &key)
    }

    /// How many entries there are.
    pub fn len(&self) -> (n: usize)
        ensures
            n == self.contents().len(),
    {
        lru_len(&self.entries)
    }

    /// Whether the store is empty.
    pub fn is_empty(&self) -> (r: bool)
        ensures
            r <==> self.contents().len() == 0,
    {
        lru_len(&self.entries) == 0
    }

    /// How often a lookup succeeded.
    pub fn hits(&self) -> (n: u64)
        ensures
            n == self.hits,
    {
        self.hits
    }

    /// How often a lookup failed.
    pub fn misses(&self) -> (n: u64)
        ensures
            n == self.misses,
    {
        self.misses
    }

    /// How many entries the store can hold.
    pub fn capacity(&self) -> (n: usize)
        ensures
            n == self.room(),
    {
        lru_cap(&self.entries)
    }
}

/// The parts of a name.
fn key_of(n: &Name) -> (k: NameParts)
    ensures
        parts_view(k) == n@,
{
    n.duplicate().into_parts()
}

/// Whether the components in `k` are the first components of `n`.
fn parts_are_prefix(k: &NameParts, n: &Name) -> (r: bool)
    ensures
        r <==> name::is_prefix(parts_view(*k), n@),
{
    n.starts_with_parts(&k.0)
}

/// What leaves a full cache is what was used least recently; a cache that is not full
/// loses nothing; and putting Data in under a name that is there loses no other name.
pub proof fn law_least_recent_leaves(entries: Entries, cap: nat, n: NameView, c: CachedData)
    requires
        distinct(entries),
        0 < entries.len() <= cap,
        !stored(entries, n),
    ensures
        entries.len() == cap ==> !stored(
            pushed(entries, cap, n, c),
            entries[entries.len() - 1].0,
        ) && pushed(entries, cap, n, c).len() == cap,
        entries.len() < cap ==> pushed(entries, cap, n, c).len() == entries.len() + 1,
        forall|i: int|
            0 <= i < entries.len() - 1 ==> #[trigger] pushed(entries, cap, n, c)[i + 1]
                == entries[i],
        pushed(entries, cap, n, c)[0] == (n, c),
{
    let after = pushed(entries, cap, n, c);
    let last = entries[entries.len() - 1].0;
    if entries.len() == cap && stored(after, last) {
        let j = place(after, last);
        assert(after[j].0 == last);
        if j == 0 {
            assert(entries[entries.len() - 1].0 == n);
        } else {
            assert(after[j] == entries[j - 1]);
            assert(entries[j - 1].0 != entries[entries.len() - 1].0);
        }
    }
}

/// Using a name puts its entry first, and keeps what is found and the order of the rest.
pub proof fn law_used_comes_first(entries: Entries, n: NameView, other: NameView)
    requires
        distinct(entries),
        stored(entries, n),
    ensures
        used(entries, n).len() == entries.len(),
        used(entries, n)[0].0 == n,
        found(used(entries, n), other) == found(entries, other),
{
    let i = place(entries, n);
    let t = touched(entries, i);
    lemma_touched(entries, i);
    assert(entries[i].0 == n);
    assert(t[0] == entries[i]);
    if stored(entries, other) {
        let k = place(entries, other);
        let j = if k == i {
            0
        } else if k < i {
            k + 1
        } else {
            k
        };
        assert(t[j] == entries[k]);
        lemma_place(t, j);
    } else if stored(t, other) {
        let j = place(t, other);
        let k = if j == 0 {
            i
        } else if j - 1 < i {
            j - 1
        } else {
            j
        };
        assert(t[j] == entries[k]);
        assert(entries[k].0 == other);
    }
}

/// A name is found exactly where an entry has that very name, and what is found is that
/// entry's Data.
pub proof fn law_found_by_name(entries: Entries, n: NameView)
    requires
        distinct(entries),
    ensures
        found(entries, n) matches Some(c) ==> exists|i: int|
            0 <= i < entries.len() && #[trigger] entries[i] == (n, c),
        found(entries, n) is None ==> forall|i: int|
            0 <= i < entries.len() ==> (#[trigger] entries[i]).0 != n,
{
    if stored(entries, n) {
        assert(entries[place(entries, n)] == (n, entries[place(entries, n)].1));
    }
}

/// What a lookup by prefix finds has a name whose components are the first ones of the
/// name looked up, and no such name that is stored is longer.
pub proof fn law_longest_prefix_found(entries: Entries, n: NameView, i: int)
    requires
        best_prefix(entries, n, i),
    ensures
        entries[i].0.0.len() <= n.0.len(),
        forall|k: int| 0 <= k < entries[i].0.0.len() ==> entries[i].0.0[k] == #[trigger] n.0[k],
        forall|j: int|
            0 <= j < entries.len() && (#[trigger] entries[j]).0.0.len() <= n.0.len() && (forall|
                k: int,
            |
                0 <= k < entries[j].0.0.len() ==> entries[j].0.0[k] == #[trigger] n.0[k])
                ==> entries[j].0.0.len() <= entries[i].0.0.len(),
{
    name::law_prefix_by_components(entries[i].0, n);
    assert forall|j: int|
        0 <= j < entries.len() && (#[trigger] entries[j]).0.0.len() <= n.0.len() && (forall|k: int|
            0 <= k < entries[j].0.0.len() ==> entries[j].0.0[k] == #[trigger] n.0[k]) implies entries[j].0.0.len()
        <= entries[i].0.0.len() by {
        name::law_prefix_by_components(entries[j].0, n);
    }
}

/// Data that is put in is what is got under its name next; the store never holds more than
/// it has room for.
pub proof fn law_put_in_is_got(
    store: &mut ContentStore,
    name: Name,
    data: Data,
    now: u64,
    left: Option<CachedData>,
    reader: &mut ContentStore,
    asked: &Name,
    d: &Data,
)
    requires
        old(store).wf(),
        call_ensures(ContentStore::insert_at, (store, name, data, now), left),
        *old(reader) == *final(store),
        asked@ == name@,
        call_ensures(ContentStore::get, (reader, asked), Some(d)),
    ensures
        *d == data,
        final(store).contents().len() <= final(store).room(),
        final(store).room() == old(store).room(),
{
    law_insert_then_get(
        store.contents(),
        store.room(),
        name@,
        CachedData { data, inserted_at: now },
        name@,
    );
}

/// A lookup that finds nothing under a name means that the store has nothing under it, and
/// counts as a miss; one that finds something counts as a hit.
pub proof fn law_hits_and_misses(store: &mut ContentStore, name: &Name, r: Option<&Data>)
    requires
        old(store).wf(),
        call_ensures(ContentStore::get, (store, name), r),
        old(store).hits < u64::MAX,
        old(store).misses < u64::MAX,
    ensures
        r is Some ==> final(store).hits == old(store).hits + 1 && final(store).misses == old(
            store).misses,
        r is None ==> final(store).hits == old(store).hits && final(store).misses == old(
            store).misses + 1,
        r is None ==> forall|i: int|
            0 <= i < old(store).contents().len() ==> (#[trigger] old(store).contents()[i]).0
                != name@,
{
}

/// A new store is empty, and has room for as many entries as it is made for, and for one at
/// least.
pub proof fn law_new_store(max_entries: usize, cs: ContentStore)
    requires
        call_ensures(ContentStore::new, (max_entries,), cs),
    ensures
        cs.contents().len() == 0,
        max_entries > 0 ==> cs.room() == max_entries,
        max_entries == 0 ==> cs.room() == 1,
        cs.hits == 0 && cs.misses == 0,
{
}

} // verus!
