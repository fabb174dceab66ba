//! Known ratchet keys, kept as text: one `identity_hash:ratchet_key` per line, both in
//! hexadecimal; lines that start with `#` are comments.

use crate::table;
use crate::table::Table;
use crate::text;
use crate::wire;
use vstd::prelude::*;

verus! {

/// What a line says: the store with one more key, the same store for a line without a
/// key, or nothing where a key is not hexadecimal.
pub open spec fn apply_line(known: Map<Seq<u8>, Seq<u8>>, line: Seq<char>) -> Option<
    Map<Seq<u8>, Seq<u8>>,
> {
    let t = text::trim_end(text::trim_start(line));
    if t.len() == 0 || t[0] == '#' || !t.contains(':') {
        Some(known)
    } else {
        let at = t.index_of_first(':')->0;
        let hash = text::hex_bytes(vstd::utf8::encode_utf8(t.subrange(0, at)));
        let key = text::hex_bytes(vstd::utf8::encode_utf8(t.subrange(at + 1, t.len() as int)));
        match (hash, key) {
            (Some(h), Some(k)) => if h.len() == 16 && k.len() == 32 {
                Some(known.insert(h, k))
            } else {
                Some(known)
            },
            _ => None,
        }
    }
}

/// What a text says, line by line.
pub open spec fn apply_text(known: Map<Seq<u8>, Seq<u8>>, s: Seq<char>) -> Option<
    Map<Seq<u8>, Seq<u8>>,
>
    decreases s.len(),
{
    if s.contains('\n') {
        let at = s.index_of_first('\n')->0;
        if 0 <= at < s.len() {
            match apply_line(known, s.subrange(0, at)) {
                Some(m) => apply_text(m, s.subrange(at + 1, s.len() as int)),
                None => None,
            }
        } else {
            None
        }
    } else {
        apply_line(known, s)
    }
}

/// The comment at the head of every stored text.
pub open spec fn head_line() -> Seq<char> {
    "# Ratchet keys: identity_hash(32 hex):ratchet_key(64 hex)"@
}

/// One entry.
pub open spec fn entry_line(hash: Seq<u8>, key: Seq<u8>) -> Seq<char> {
    text::hex_text(hash) + seq![':'] + text::hex_text(key)
}

/// The lines of some entries, in order.
pub open spec fn entry_lines(entries: Seq<(Vec<u8>, [u8; 32])>) -> Seq<char>
    decreases entries.len(),
{
    if entries.len() == 0 {
        Seq::empty()
    } else {
        entry_lines(entries.drop_last()) + entry_line(entries.last().0@, entries.last().1@) + seq![
            '\n',
        ]
    }
}

/// A table of keys, over byte sequences.
pub open spec fn keys_view(m: Map<Seq<u8>, [u8; 32]>) -> Map<Seq<u8>, Seq<u8>> {
    Map::new(|k: Seq<u8>| m.dom().contains(k), |k: Seq<u8>| m[k]@)
}

proof fn lemma_keys_insert(m: Map<Seq<u8>, [u8; 32]>, hash: Seq<u8>, key: [u8; 32])
    ensures
        keys_view(m.insert(hash, key)) == keys_view(m).insert(hash, key@),
{
    assert(keys_view(m.insert(hash, key)) =~= keys_view(m).insert(hash, key@));
}

/// The ratchet keys that are known, by identity hash.
pub struct RatchetStore {
    pub known: Table<Vec<u8>, [u8; 32]>,
}

impl View for RatchetStore {
    type V = Map<Seq<u8>, Seq<u8>>;

    open spec fn view(&self) -> Map<Seq<u8>, Seq<u8>> {
        keys_view(self.known@)
    }
}

impl RatchetStore {
    /// Every identity occurs once, with a hash of 16 bytes.
    pub open spec fn wf(&self) -> bool {
        &&& self.known.wf()
        &&& forall|i: int|
            0 <= i < self.known.entries@.len() ==> (#[trigger] self.known.entries@[i]).0@.len()
                == 16
    }

    /// The text of the store.
    pub open spec fn rendered(&self) -> Seq<char> {
        head_line() + seq!['\n'] + entry_lines(self.known.entries@)
    }
}

// --- Facts about the text ---

proof fn lemma_first_index(s: Seq<char>, before: Seq<char>, c: char, after: Seq<char>)
    requires
        s == before + seq![c] + after,
        !before.contains(c),
    ensures
        s.contains(c),
        s.index_of_first(c) == Some(before.len() as int),
{
    let n = before.len() as int;
    assert(s[n] == c);
    s.index_of_first_ensures(c);
    let at = s.index_of_first(c)->0;
    assert(s.index_of_first(c) is Some);
    if at < n {
        assert(before[at] == c);
        assert(false);
    }
    if at > n {
        assert(s[n] == c);
        assert(false);
    }
}

proof fn lemma_hex_chars(data: Seq<u8>)
    ensures
        !text::hex_text(data).contains(':'),
        !text::hex_text(data).contains('\n'),
        forall|i: int|
            0 <= i < text::hex_text(data).len() ==> !text::is_space(#[trigger] text::hex_text(data)[i])
                && text::hex_text(data)[i] != '#' && text::hex_text(data)[i] != ':'
                && text::hex_text(data)[i] != '\n',
{
    let t = text::hex_text(data);
    assert forall|i: int| 0 <= i < t.len() implies !text::is_space(#[trigger] t[i]) && t[i] != '#' && t[i]
        != ':' && t[i] != '\n' by {
        let b = data[i / 2];
        assert(0 <= b as int / 16 < 16 && 0 <= b as int % 16 < 16);
    }
}

proof fn lemma_entry_line(known: Map<Seq<u8>, Seq<u8>>, hash: Seq<u8>, key: Seq<u8>)
    requires
        hash.len() == 16,
        key.len() == 32,
    ensures
        apply_line(known, entry_line(hash, key)) == Some(known.insert(hash, key)),
        !entry_line(hash, key).contains('\n'),
{
    let l = entry_line(hash, key);
    let a = text::hex_text(hash);
    let b = text::hex_text(key);
    lemma_hex_chars(hash);
    lemma_hex_chars(key);
    text::law_hex_roundtrip(hash);
    text::law_hex_roundtrip(key);
    assert(l[0] == a[0]);
    assert(l.last() == b.last());
    assert(text::trim_end(text::trim_start(l)) == l);
    lemma_first_index(l, a, ':', b);
    assert(l.subrange(0, 32) =~= a);
    assert(l.subrange(33, l.len() as int) =~= b);
    assert forall|i: int| 0 <= i < l.len() implies l[i] != '\n' by {
        if i < 32 {
            assert(l[i] == a[i]);
        } else if i > 32 {
            assert(l[i] == b[i - 33]);
        }
    }
}

proof fn lemma_apply_head(known: Map<Seq<u8>, Seq<u8>>, l: Seq<char>, rest: Seq<char>)
    requires
        !l.contains('\n'),
        apply_line(known, l) is Some,
    ensures
        apply_text(known, l + seq!['\n'] + rest) == apply_text(apply_line(known, l)->0, rest),
{
    let s = l + seq!['\n'] + rest;
    lemma_first_index(s, l, '\n', rest);
    assert(s.subrange(0, l.len() as int) =~= l);
    assert(s.subrange(l.len() as int + 1, s.len() as int) =~= rest);
}

proof fn lemma_entry_lines(entries: Seq<(Vec<u8>, [u8; 32])>, rest: Seq<char>)
    requires
        table::distinct(entries),
        forall|i: int| 0 <= i < entries.len() ==> (#[trigger] entries[i]).0@.len() == 16,
    ensures
        apply_text(Map::empty(), entry_lines(entries) + rest) == apply_text(
            keys_view(table::contents(entries)),
            rest,
        ),
    decreases entries.len(),
{
    if entries.len() == 0 {
        assert(entry_lines(entries) + rest =~= rest);
        assert(keys_view(table::contents(entries)) =~= Map::empty());
    } else {
        let before = entries.drop_last();
        let e = entries.last();
        let tail = entry_line(e.0@, e.1@) + seq!['\n'] + rest;
        assert(table::distinct(before)) by {
            assert forall|i: int, j: int| 0 <= i < j < before.len() implies (#[trigger] before[i]).0@
                != (#[trigger] before[j]).0@ by {
                assert(entries[i].0@ != entries[j].0@);
            }
        }
        assert(!table::listed(before, e.0@)) by {
            if table::listed(before, e.0@) {
                let i = table::place(before, e.0@);
                assert(entries[i].0@ != entries[entries.len() - 1].0@);
            }
        }
        assert forall|i: int| 0 <= i < before.len() implies (#[trigger] before[i]).0@.len() == 16 by {
            assert(entries[i].0@.len() == 16);
        }
        lemma_entry_lines(before, tail);
        assert(entry_lines(entries) + rest =~= entry_lines(before) + tail);
        assert(entries[entries.len() - 1].0@.len() == 16);
        let known = keys_view(table::contents(before));
        lemma_entry_line(known, e.0@, e.1@);
        lemma_apply_head(known, entry_line(e.0@, e.1@), rest);
        table::lemma_push(before, e);
        assert(before.push(e) =~= entries);
        lemma_keys_insert(table::contents(before), e.0@, e.1);
    }
}

/// The text of a store says what the store holds.
pub proof fn law_text_roundtrip(store: RatchetStore)
    requires
        store.wf(),
    ensures
        apply_text(Map::empty(), store.rendered()) == Some(store@),
{
    let known = Map::<Seq<u8>, Seq<u8>>::empty();
    let l = head_line();
    let entries = store.known.entries@;
    reveal_strlit("# Ratchet keys: identity_hash(32 hex):ratchet_key(64 hex)");
    assert(l[0] == '#');
    assert(l.last() == ')');
    assert(text::trim_end(text::trim_start(l)) == l);
    assert(apply_line(known, l) == Some(known));
    assert(!l.contains('\n'));
    lemma_apply_head(known, l, entry_lines(entries));
    let empty = Seq::<char>::empty();
    lemma_entry_lines(entries, empty);
    assert(entry_lines(entries) + empty =~= entry_lines(entries));
    assert(!empty.contains('\n'));
}

// --- Reading and writing ---

/// Where `c` first occurs.
fn find_char(s: &[char], c: char) -> (r: Option<usize>)
    ensures
        (match r {
            Some(i) => i < s@.len() && s@.contains(c) && s@.index_of_first(c) == Some(i as int),
            None => !s@.contains(c),
        }),
{
    let mut i: usize = 0;
    while i < s.len()
        invariant
            i <= s@.len(),
            forall|j: int| 0 <= j < i ==> s@[j] != c,
        decreases s@.len() - i,
    {
        if s[i] == c {
            proof {
                let before = s@.subrange(0, i as int);
                assert(!before.contains(c));
                assert(s@ =~= before + seq![c] + s@.subrange(i + 1, s@.len() as int));
                lemma_first_index(s@, before, c, s@.subrange(i + 1, s@.len() as int));
            }
            return Some(i);
        }
        i = i + 1;
    }
    None
}

impl RatchetStore {
    /// A store without keys.
    pub fn new() -> (store: Self)
        ensures
            store.wf(),
            store@ == Map::<Seq<u8>, Seq<u8>>::empty(),
    {
        let store = RatchetStore { known: Table::new() };
        assert(store@ =~= Map::<Seq<u8>, Seq<u8>>::empty());
        store
    }

    /// The store that a text describes; an empty one where a key is not hexadecimal.
    pub fn open(data: &str) -> (store: Self)
        ensures
            store.wf(),
            store@ == (match apply_text(Map::empty(), data@) {
                Some(m) => m,
                None => Map::empty(),
            }),
    {
        match RatchetStore::parse(data) {
            Some(store) => store,
            None => RatchetStore::new(),
        }
    }

    /// Stores a ratchet key for an identity.
    pub fn store(&mut self, identity_hash: [u8; 16], ratchet_key: [u8; 32])
        requires
            old(self).wf(),
        ensures
            final(self).wf(),
            final(self)@ == old(self)@.insert(identity_hash@, ratchet_key@),
    {
        let ghost before = self.known.entries@;
        proof {
            lemma_keys_insert(self.known@, identity_hash@, ratchet_key);
        }
        self.known.insert(wire::copy_all(identity_hash.as_slice()), ratchet_key);
        proof {
            let after = self.known.entries@;
            assert forall|i: int| 0 <= i < after.len() implies (#[trigger] after[i]).0@.len() == 16 by {
                table::lemma_entry(after, i);
                let k = after[i].0@;
                if k != identity_hash@ {
                    assert(table::contents(before).dom().contains(k));
                    let j = table::place(before, k);
                    assert(before[j].0@.len() == 16);
                }
            }
        }
    }

    /// The ratchet key of an identity.
    pub fn lookup(&self, identity_hash: &[u8; 16]) -> (key: Option<[u8; 32]>)
        requires
            self.wf(),
        ensures
            (match key {
                Some(k) => self@.dom().contains(identity_hash@) && self@[identity_hash@] == k@,
                None => !self@.dom().contains(identity_hash@),
            }),
    {
        match self.known.get(&wire::copy_all(identity_hash.as_slice())) {
            Some(k) => Some(*k),
            None => None,
        }
    }

    /// Removes the ratchet key of an identity.
    pub fn remove(&mut self, identity_hash: &[u8; 16])
        requires
            old(self).wf(),
        ensures
            final(self).wf(),
            final(self)@ == old(self)@.remove(identity_hash@),
    {
        let ghost before = self.known.entries@;
        self.known.remove(&wire::copy_all(identity_hash.as_slice()));
        proof {
            let after = self.known.entries@;
            assert forall|i: int| 0 <= i < after.len() implies (#[trigger] after[i]).0@.len() == 16 by {
                table::lemma_entry(after, i);
                let k = after[i].0@;
                assert(table::contents(before).dom().contains(k));
                let j = table::place(before, k);
                assert(before[j].0@.len() == 16);
            }
            assert(self@ =~= old(self)@.remove(identity_hash@));
        }
    }

    /// The identity hashes that are stored, each once.
    pub fn identities(&self) -> (ids: Vec<[u8; 16]>)
        requires
            self.wf(),
        ensures
            ids@.len() == self@.dom().len(),
            forall|i: int| 0 <= i < ids@.len() ==> self@.dom().contains(#[trigger] ids@[i]@),
            forall|h: Seq<u8>|
                self@.dom().contains(h) ==> exists|i: int|
                    0 <= i < ids@.len() && #[trigger] ids@[i]@ == h,
    {
        let mut ids: Vec<[u8; 16]> = Vec::new();
        let mut i: usize = 0;
        while i < self.known.entries.len()
            invariant
                self.wf(),
                i <= self.known.entries@.len(),
                ids@.len() == i,
                forall|j: int| 0 <= j < i ==> #[trigger] ids@[j]@ == self.known.entries@[j].0@,
            decreases self.known.entries@.len() - i,
        {
            assert(self.known.entries@[i as int].0@.len() == 16);
            let id: [u8; 16] = wire::read_16(self.known.entries[i].0.as_slice(), 0);
            assert(id@ =~= self.known.entries@[i as int].0@);
            ids.push(id);
            i = i + 1;
        }
        proof {
            table::lemma_size(self.known.entries@);
            assert(self@.dom() =~= self.known@.dom());
            assert forall|i: int| 0 <= i < ids@.len() implies self@.dom().contains(
                #[trigger] ids@[i]@,
            ) by {
                table::lemma_entry(self.known.entries@, i);
            }
            assert forall|h: Seq<u8>| self@.dom().contains(h) implies exists|i: int|
                0 <= i < ids@.len() && #[trigger] ids@[i]@ == h by {
                let i = table::place(self.known.entries@, h);
                assert(ids@[i]@ == h);
            }
        }
        ids
    }

    /// How many keys are stored.
    pub fn len(&self) -> (n: usize)
        requires
            self.wf(),
        ensures
            n == self@.dom().len(),
    {
        assert(self@.dom() =~= self.known@.dom());
        self.known.len()
    }

    /// Takes in what one line says; false where a key is not hexadecimal.
    fn take_line(&mut self, line: &[char]) -> (ok: bool)
        requires
            old(self).wf(),
        ensures
            final(self).wf(),
            ok <==> apply_line(old(self)@, line@) is Some,
            ok ==> apply_line(old(self)@, line@) == Some(final(self)@),
    {
        let (from, to) = text::trim(line);
        let ghost t = line@.subrange(from as int, to as int);
        if from == to {
            return true;
        }
        let body: &[char] = vstd::slice::slice_subrange(line, from, to);
        if body[0] == '#' {
            return true;
        }
        match find_char(body, ':') {
            None => true,
            Some(at) => {
                let hash_text: String = text::string_of(vstd::slice::slice_subrange(body, 0, at));
                let key_text: String = text::string_of(
                    vstd::slice::slice_subrange(body, at + 1, body.len()),
                );
                match (text::hex_decode(hash_text.as_str()), text::hex_decode(key_text.as_str())) {
                    (Ok(h), Ok(k)) => {
                        if h.len() == 16 && k.len() == 32 {
                            let hash: [u8; 16] = wire::read_16(h.as_slice(), 0);
                            let key: [u8; 32] = wire::read_32(k.as_slice(), 0);
                            assert(hash@ =~= h@);
                            assert(key@ =~= k@);
                            self.store(hash, key);
                        }
                        true
                    },
                    _ => false,
                }
            },
        }
    }

    /// Reads a store from text; nothing where a key is not hexadecimal.
    pub fn parse(data: &str) -> (r: Option<Self>)
        ensures
            (match r {
                Some(store) => store.wf() && apply_text(Map::empty(), data@) == Some(store@),
                None => apply_text(Map::empty(), data@) is None,
            }),
    {
        let chars: Vec<char> = text::chars_of(data);
        let mut store: RatchetStore = RatchetStore::new();
        let mut pos: usize = 0;
        assert(chars@.subrange(0, chars@.len() as int) =~= data@);
        loop
            invariant
                pos <= chars@.len(),
                store.wf(),
                apply_text(Map::empty(), data@) == apply_text(
                    store@,
                    chars@.subrange(pos as int, chars@.len() as int),
                ),
            decreases chars@.len() - pos,
        {
            let rest: &[char] = vstd::slice::slice_subrange(chars.as_slice(), pos, chars.len());
            match find_char(rest, '\n') {
                Some(at) => {
                    let line: &[char] = vstd::slice::slice_subrange(rest, 0, at);
                    if !store.take_line(line) {
                        return None;
                    }
                    assert(rest@.subrange(at + 1, rest@.len() as int) =~= chars@.subrange(
                        pos + at + 1,
                        chars@.len() as int,
                    ));
                    pos = pos + at + 1;
                },
                None => {
                    if !store.take_line(rest) {
                        return None;
                    }
                    return Some(store);
                },
            }
        }
    }

    /// The text that describes the store.
    pub fn render(&self) -> (out: String)
        requires
            self.wf(),
        ensures
            out@ == self.rendered(),
    {
        let mut out: String =
            "# Ratchet keys: identity_hash(32 hex):ratchet_key(64 hex)".to_owned();
        out.append("\n");
        proof {
            reveal_strlit("\n");
            reveal_strlit(":");
            assert("\n"@ =~= seq!['\n']);
            assert(":"@ =~= seq![':']);
        }
        let ghost entries = self.known.entries@;
        let mut i: usize = 0;
        assert(entries.subrange(0, 0) =~= Seq::empty());
        assert(out@ =~= head_line() + seq!['\n'] + entry_lines(entries.subrange(0, 0)));
        while i < self.known.entries.len()
            invariant
                i <= entries.len(),
                entries == self.known.entries@,
                "\n"@ == seq!['\n'],
                ":"@ == seq![':'],
                out@ == head_line() + seq!['\n'] + entry_lines(entries.subrange(0, i as int)),
            decreases entries.len() - i,
        {
            let ghost before = out@;
            out.append(text::hex_encode(self.known.entries[i].0.as_slice()).as_str());
            out.append(":");
            out.append(text::hex_encode(self.known.entries[i].1.as_slice()).as_str());
            out.append("\n");
            proof {
                let line = entry_line(entries[i as int].0@, entries[i as int].1@);
                assert(out@ =~= before + line + seq!['\n']);
                assert(entries.subrange(0, i + 1).drop_last() =~= entries.subrange(0, i as int));
                assert(out@ =~= head_line() + seq!['\n'] + entry_lines(entries.subrange(0, i + 1)));
            }
            i = i + 1;
        }
        assert(entries.subrange(0, i as int) =~= entries);
        out
    }
}

/// Why a store cannot be kept.
#[derive(Debug, Clone, PartialEq, Eq)]
pub enum RatchetStoreError {
    /// Another user of the store failed while it had the store to itself.
    Lock,
    /// The file of the store cannot be written.
    Io(String),
}

impl RatchetStoreError {
    /// The text of the error.
    pub open spec fn message(&self) -> Seq<char> {
        match *self {
            RatchetStoreError::Lock => "ratchet store lock poisoned"@,
            RatchetStoreError::Io(m) => "ratchet store I/O: "@ + m@,
        }
    }

    /// The message that describes the error.
    pub fn to_string(&self) -> (out: String)
        ensures
            out@ == self.message(),
    {
        match self {
            RatchetStoreError::Lock => "ratchet store lock poisoned".to_owned(),
            RatchetStoreError::Io(m) => text::join("ratchet store I/O: ", m.as_str()),
        }
    }
}

/// A key that is stored is found, until it is replaced or removed; other keys stay.
pub proof fn law_stored_is_found(
    store: &mut RatchetStore,
    hash: [u8; 16],
    key: [u8; 32],
    after: &RatchetStore,
    other: &[u8; 16],
    found: Option<[u8; 32]>,
    kept: Option<[u8; 32]>,
    before: &RatchetStore,
    had: Option<[u8; 32]>,
)
    requires
        old(store).wf(),
        call_ensures(RatchetStore::store, (store, hash, key), ()),
        *after == *final(store),
        *before == *old(store),
        call_ensures(RatchetStore::lookup, (after, &hash), found),
        call_ensures(RatchetStore::lookup, (after, other), kept),
        call_ensures(RatchetStore::lookup, (before, other), had),
        other@ != hash@,
    ensures
        found matches Some(k) && k@ == key@,
        kept is Some <==> had is Some,
        kept is Some ==> kept->0@ == had->0@,
{
}

/// A key that is removed is no longer found; other keys stay.
pub proof fn law_removed_is_gone(
    store: &mut RatchetStore,
    hash: &[u8; 16],
    after: &RatchetStore,
    found: Option<[u8; 32]>,
)
    requires
        old(store).wf(),
        call_ensures(RatchetStore::remove, (store, hash), ()),
        *after == *final(store),
        call_ensures(RatchetStore::lookup, (after, hash), found),
    ensures
        found is None,
        forall|h: Seq<u8>|
            h != hash@ && #[trigger] old(store)@.dom().contains(h) ==> after@.dom().contains(h)
                && after@[h] == old(store)@[h],
{
}

/// A store is read back from the text that it is written as.
pub proof fn law_rendered_is_opened(store: &RatchetStore, out: String, t: &str, again: RatchetStore)
    requires
        store.wf(),
        call_ensures(RatchetStore::render, (store,), out),
        t@ == out@,
        call_ensures(RatchetStore::open, (t,), again),
    ensures
        again@ == store@,
{
    law_text_roundtrip(*store);
}

/// An entry is written as the hash and the key in hexadecimal with a colon in between. A
/// comment and a blank line say nothing; a line that is not hexadecimal around its colon
/// spoils the file.
pub proof fn law_lines(known: Map<Seq<u8>, Seq<u8>>, hash: Seq<u8>, key: Seq<u8>, line: Seq<char>)
    ensures
        hash.len() == 16 && key.len() == 32 ==> apply_line(
            known,
            text::hex_text(hash) + seq![':'] + text::hex_text(key),
        ) == Some(known.insert(hash, key)),
        ({
            let t = text::trim_end(text::trim_start(line));
            t.len() == 0 || t[0] == '#' ==> apply_line(known, line) == Some(known)
        }),
        ({
            let t = text::trim_end(text::trim_start(line));
            let at = t.index_of_first(':')->0;
            t.len() > 0 && t[0] != '#' && t.contains(':') && text::hex_bytes(
                vstd::utf8::encode_utf8(t.subrange(0, at)),
            ) is None ==> apply_line(known, line) is None
        }),
{
    if hash.len() == 16 && key.len() == 32 {
        lemma_entry_line(known, hash, key);
    }
}

} // verus!
