//! Manifests: what a producer offers, and the text form of names in them.

use crate::crypto::primitives;
use crate::icn::data;
use crate::icn::data::Data;
use crate::icn::name;
use crate::icn::name::{Name, NameView};
use crate::identity::Keys;
use crate::text;
use crate::transport::proofs;
use crate::transport::Proof;
use crate::wire;
use vstd::prelude::*;
use vstd::utf8;

verus! {

/// A producer's signed list of content.
#[derive(Debug, Clone, PartialEq, Eq)]
pub struct Manifest {
    /// The producer hash.
    pub producer: [u8; 32],
    /// Higher is newer.
    pub sequence: u64,
    /// When the manifest was made, in Unix seconds.
    pub timestamp: u64,
    pub entries: Vec<ManifestEntry>,
    /// The name of the former manifest.
    pub previous: Option<Name>,
}

/// Content in a manifest.
#[derive(Debug, Clone, PartialEq, Eq)]
pub struct ManifestEntry {
    pub kind: EntryKind,
    pub label: String,
    pub content_name: Name,
    /// BLAKE3 digest of the content.
    pub content_hash: Option<[u8; 32]>,
    /// Size of the content in bytes.
    pub size: Option<u64>,
}

/// What an entry points to.
#[derive(Debug, Clone, Copy, PartialEq, Eq, Structural)]
pub enum EntryKind {
    /// One Data.
    Blob,
    /// Data with increasing sequence numbers.
    Stream,
    /// A further manifest.
    Manifest,
}

/// The word for a kind of entry.
pub open spec fn kind_word(k: EntryKind) -> Seq<char> {
    match k {
        EntryKind::Blob => "blob"@,
        EntryKind::Stream => "stream"@,
        EntryKind::Manifest => "manifest"@,
    }
}

impl EntryKind {
    /// The word for the kind.
    pub fn as_str(&self) -> (s: &'static str)
        ensures
            s@ == kind_word(*self),
    {
        match self {
            EntryKind::Blob => "blob",
            EntryKind::Stream => "stream",
            EntryKind::Manifest => "manifest",
        }
    }
}

/// The chunks of content that is too large for one Data.
#[derive(Debug, Clone, PartialEq, Eq)]
pub struct ContentManifest {
    /// The chunks, in order.
    pub chunks: Vec<ChunkRef>,
    /// Size of the whole content.
    pub total_size: u64,
}

/// A chunk of some content.
#[derive(Debug, Clone, PartialEq, Eq)]
pub struct ChunkRef {
    pub name: Name,
    /// BLAKE3 digest of the chunk.
    pub hash: [u8; 32],
    /// Where the chunk starts in the content.
    pub offset: u64,
    pub length: u32,
}

#[derive(Debug, Clone, PartialEq, Eq)]
pub enum ManifestError {
    Json(String),
    InvalidName(String),
    ContentHashMismatch { expected: [u8; 32], actual: [u8; 32] },
}

impl ManifestError {
    /// The text of the error.
    pub open spec fn message(&self) -> Seq<char> {
        match *self {
            ManifestError::Json(m) => "JSON serialization failed: "@ + m@,
            ManifestError::InvalidName(m) => "invalid name for manifest: "@ + m@,
            ManifestError::ContentHashMismatch { expected, actual } => {
                "content hash mismatch: expected "@ + text::byte_list(expected@) + ", got "@
                    + text::byte_list(actual@)
            },
        }
    }

    /// The message that describes the error.
    pub fn to_string(&self) -> (out: String)
        ensures
            out@ == self.message(),
    {
        match self {
            ManifestError::Json(m) => text::join("JSON serialization failed: ", m.as_str()),
            ManifestError::InvalidName(m) => text::join("invalid name for manifest: ", m.as_str()),
            ManifestError::ContentHashMismatch { expected, actual } => {
                let mut out: String = text::join(
                    "content hash mismatch: expected ",
                    text::list_bytes(expected.as_slice()).as_str(),
                );
                out.append(", got ");
                out.append(text::list_bytes(actual.as_slice()).as_str());
                out
            },
        }
    }
}

/// The name of a producer's manifest.
pub open spec fn manifest_name(producer: Seq<u8>) -> NameView {
    (seq![producer, utf8::encode_utf8("manifest"@)], None)
}

impl Manifest {
    /// Takes a manifest that was read from the content of some Data. It has to be
    /// readable, and the content has to have the hash that the metadata gives.
    pub fn from_data(d: &Data, parsed: Result<Manifest, String>) -> (r: Result<
        Self,
        ManifestError,
    >)
        ensures
            (match parsed {
                Err(m) => r == Err::<Manifest, ManifestError>(ManifestError::Json(m)),
                Ok(manifest) => match d.metadata.content_hash {
                    None => r == Ok::<Manifest, ManifestError>(manifest),
                    Some(h) => if h@ == primitives::blake3_digest(d.content@) {
                        r == Ok::<Manifest, ManifestError>(manifest)
                    } else {
                        r matches Err(ManifestError::ContentHashMismatch { expected, actual })
                            && expected == h && actual@ == primitives::blake3_digest(d.content@)
                    },
                },
            }),
    {
        let manifest: Manifest = match parsed {
            Ok(m) => m,
            Err(e) => {
                return Err(ManifestError::Json(e));
            },
        };
        match d.metadata.content_hash {
            None => Ok(manifest),
            Some(expected) => {
                let actual: [u8; 32] = primitives::blake3_hash(d.content.as_slice());
                if wire::same_bytes(expected.as_slice(), actual.as_slice()) {
                    Ok(manifest)
                } else {
                    Err(ManifestError::ContentHashMismatch { expected, actual })
                }
            },
        }
    }

    /// Signs the manifest, given in its serialized form, as Data.
    pub fn to_data(&self, content: Vec<u8>, keys: &Keys) -> (d: Data)
        ensures
            d.name@ == manifest_name(self.producer@),
            d.content == content,
            proofs::proves(
                keys.identity(),
                data::signed_digest(manifest_name(self.producer@), content@),
                d.signature.packet_hash@,
                d.signature.signature@,
            ),
            d.signature.signature@ == primitives::ed25519_signature(
                keys.signing@,
                data::signed_digest(manifest_name(self.producer@), content@),
            ),
            d.metadata.sequence == Some(self.sequence),
            wire::key_view(d.metadata.content_hash) == Some(primitives::blake3_digest(content@)),
            d.metadata.freshness is Fresh,
    {
        let word: Vec<u8> = wire::copy_all("manifest".as_bytes());
        let mut components: Vec<Vec<u8>> = Vec::new();
        components.push(wire::copy_all(self.producer.as_slice()));
        components.push(word);
        assert(wire::all_bytes(components@)[0] == self.producer@);
        let name: Name = Name::from_parts(components, None);
        proof {
            assert(name@.0 =~= manifest_name(self.producer@).0);
        }
        let unsigned: Proof = Proof { packet_hash: [0u8; 32], signature: [0u8; 64] };
        let mut d: Data = Data::new(name, content, unsigned);
        let digest: [u8; 32] = d.signed_hash();
        d.signature = proofs::generate_proof(keys, digest.as_slice());
        d.with_sequence(self.sequence)
    }

    /// The first entry with a label.
    pub fn find(&self, label: &str) -> (r: Option<&ManifestEntry>)
        ensures
            (match r {
                Some(e) => exists|i: int|
                    0 <= i < self.entries@.len() && #[trigger] self.entries@[i] == *e && e.label@
                        == label@ && forall|j: int|
                        0 <= j < i ==> (#[trigger] self.entries@[j]).label@ != label@,
                None => forall|i: int|
                    0 <= i < self.entries@.len() ==> (#[trigger] self.entries@[i]).label@
                        != label@,
            }),
    {
        let wanted: String = label.to_owned();
        let mut i: usize = 0;
        while i < self.entries.len()
            invariant
                i <= self.entries@.len(),
                wanted@ == label@,
                forall|j: int| 0 <= j < i ==> (#[trigger] self.entries@[j]).label@ != label@,
            decreases self.entries@.len() - i,
        {
            if self.entries[i].label == wanted {
                assert(self.entries@[i as int].label@ == label@);
                return Some(&self.entries[i]);
            }
            i = i + 1;
        }
        None
    }

    /// Whether the manifest is newer than a sequence number.
    pub fn is_newer_than(&self, seq: u64) -> (r: bool)
        ensures
            r <==> self.sequence > seq,
    {
        self.sequence > seq
    }
}

impl ContentManifest {
    /// How many chunks there are.
    pub fn chunk_count(&self) -> (n: usize)
        ensures
            n == self.chunks@.len(),
    {
        self.chunks.len()
    }
}

// --- Names in text ---

/// Whether `pat` occurs in `s` at `i`.
pub open spec fn occurs(s: Seq<char>, pat: Seq<char>, i: int) -> bool {
    0 <= i && i + pat.len() <= s.len() && s.subrange(i, i + pat.len()) == pat
}

/// Where `pat` first occurs in `s`, from `i` on.
pub open spec fn first_from(s: Seq<char>, pat: Seq<char>, i: int) -> Option<int>
    decreases s.len() - i,
{
    if i < 0 || i >= s.len() {
        None
    } else if occurs(s, pat, i) {
        Some(i)
    } else {
        first_from(s, pat, i + 1)
    }
}

/// `s` without the slashes at its start.
pub open spec fn without_slashes(s: Seq<char>) -> Seq<char>
    decreases s.len(),
{
    if s.len() > 0 && s[0] == '/' {
        without_slashes(s.subrange(1, s.len() as int))
    } else {
        s
    }
}

/// The parts of `s` that slashes end, and what follows the last slash. Empty parts do
/// not count.
pub open spec fn slashed(s: Seq<char>) -> (Seq<Seq<char>>, Seq<char>)
    decreases s.len(),
{
    if s.len() == 0 {
        (Seq::empty(), Seq::empty())
    } else {
        let (parts, open) = slashed(s.drop_last());
        if s.last() != '/' {
            (parts, open.push(s.last()))
        } else if open.len() > 0 {
            (parts.push(open), Seq::empty())
        } else {
            (parts, open)
        }
    }
}

/// The parts of `s` between slashes.
pub open spec fn parts_of(s: Seq<char>) -> Seq<Seq<char>> {
    let (parts, open) = slashed(s);
    if open.len() > 0 {
        parts.push(open)
    } else {
        parts
    }
}

/// The length of a text in UTF-8.
pub open spec fn utf8_len(s: Seq<char>) -> nat {
    utf8::encode_utf8(s).len()
}

/// Some zeros.
pub open spec fn zeros(n: nat) -> Seq<char> {
    Seq::new(n, |i: int| '0')
}

/// Whether two dots in `s` can stand for zeros up to 64 digits.
pub open spec fn expandable(s: Seq<char>) -> bool {
    first_from(s, ".."@, 0) matches Some(i) ==> utf8_len(s.subrange(0, i)) + utf8_len(
        s.subrange(i + 2, s.len() as int),
    ) <= 64
}

/// `s` with the first two dots replaced by zeros, up to 64 digits.
pub open spec fn expanded(s: Seq<char>) -> Seq<char> {
    match first_from(s, ".."@, 0) {
        Some(i) => {
            let head = s.subrange(0, i);
            let tail = s.subrange(i + 2, s.len() as int);
            head + zeros((64 - utf8_len(head) - utf8_len(tail)) as nat) + tail
        },
        None => s,
    }
}

/// The 32-byte hash that a compact text stands for; `what` is the name of the hash in
/// errors.
pub open spec fn compact_hash(s: Seq<char>, invalid: Seq<char>, length: Seq<char>) -> Result<
    Seq<u8>,
    Seq<char>,
> {
    let full = expanded(s);
    match text::hex_bytes(utf8::encode_utf8(full)) {
        Some(b) => if b.len() == 32 {
            Ok(b)
        } else {
            Err(length)
        },
        None => Err(invalid + text::hex_complaint(full)),
    }
}

/// The text in front of the content hash of a name, and the text of the hash.
pub open spec fn hash_split(s: Seq<char>) -> (Seq<char>, Option<Seq<char>>) {
    let t = without_slashes(s);
    match first_from(t, "?blake3="@, 0) {
        Some(i) => (t.subrange(0, i), Some(t.subrange(i + 8, t.len() as int))),
        None => (t, None),
    }
}

/// The content hash in the text of a name.
pub open spec fn text_hash(s: Seq<char>) -> Result<Option<Seq<u8>>, Seq<char>> {
    match hash_split(s).1 {
        Some(h) => match compact_hash(
            h,
            "invalid hash hex: "@,
            "content hash must be 32 bytes"@,
        ) {
            Ok(b) => Ok(Some(b)),
            Err(e) => Err(e),
        },
        None => Ok(None),
    }
}

/// A component in text: hexadecimal where it can be read so, or else UTF-8.
pub open spec fn text_component(s: Seq<char>) -> Seq<u8> {
    match text::hex_bytes(utf8::encode_utf8(s)) {
        Some(b) => b,
        None => utf8::encode_utf8(s),
    }
}

/// The name that a text stands for: `/<producer>/<path...>[?blake3=<hash>]`.
pub open spec fn text_name(s: Seq<char>) -> Result<NameView, Seq<char>> {
    match text_hash(s) {
        Err(e) => Err(e),
        Ok(hash) => {
            let parts = parts_of(hash_split(s).0);
            if parts.len() == 0 {
                Err("name must have at least a producer hash"@)
            } else {
                match compact_hash(
                    parts[0],
                    "invalid producer hash hex: "@,
                    "producer hash must be 32 bytes"@,
                ) {
                    Err(e) => Err(e),
                    Ok(p) => Ok(
                        (
                            seq![p] + Seq::new(
                                (parts.len() - 1) as nat,
                                |i: int| text_component(parts[i + 1]),
                            ),
                            hash,
                        ),
                    ),
                }
            }
        },
    }
}

/// Whether the hashes in the text of a name are short enough to be expanded.
pub open spec fn readable(s: Seq<char>) -> bool {
    &&& (hash_split(s).1 matches Some(h) ==> expandable(h))
    &&& (text_hash(s) is Ok && parts_of(hash_split(s).0).len() > 0 ==> expandable(
        parts_of(hash_split(s).0)[0],
    ))
}

/// Where a pattern occurs, and nowhere before, is where it is first found.
proof fn lemma_first_at(s: Seq<char>, pat: Seq<char>, i: int, k: int)
    requires
        0 <= i <= k < s.len(),
        occurs(s, pat, k),
        forall|j: int| i <= j < k ==> !#[trigger] occurs(s, pat, j),
    ensures
        first_from(s, pat, i) == Some(k),
    decreases k - i,
{
    if i < k {
        lemma_first_at(s, pat, i + 1, k);
    }
}

/// What occurs nowhere is not found.
proof fn lemma_not_found(s: Seq<char>, pat: Seq<char>, i: int)
    requires
        0 <= i,
        forall|j: int| i <= j < s.len() ==> !#[trigger] occurs(s, pat, j),
    ensures
        first_from(s, pat, i) is None,
    decreases s.len() - i,
{
    if i < s.len() {
        lemma_not_found(s, pat, i + 1);
    }
}

/// What is not found occurs nowhere.
proof fn lemma_nowhere(s: Seq<char>, pat: Seq<char>, i: int, j: int)
    requires
        0 <= i <= j < s.len(),
        first_from(s, pat, i) is None,
    ensures
        !occurs(s, pat, j),
    decreases j - i,
{
    if i < j {
        lemma_nowhere(s, pat, i + 1, j);
    }
}

/// Whether bytes 4 to 27 of a 32-byte hash are zero.
pub open spec fn sparse(h: Seq<u8>) -> bool {
    h.len() == 32 && forall|i: int| 4 <= i < 28 ==> #[trigger] h[i] == 0
}

/// Whether a component is not changed by being written as text and read back: text
/// that does not read as hexadecimal, or up to 8 bytes that are no text.
pub open spec fn kept(c: Seq<u8>) -> bool {
    &&& c.len() > 0
    &&& if c.len() != 32 && utf8::valid_utf8(c) {
        text::hex_bytes(c) is None && !utf8::decode_utf8(c).contains('/')
    } else {
        c.len() <= 8
    }
}

/// Whether a name is not changed by being written as text and read back: its hashes
/// are sparse, its other components are kept, and the mark of a content hash does not
/// occur in them.
pub open spec fn text_safe(n: NameView) -> bool {
    &&& n.0.len() > 0
    &&& sparse(n.0[0])
    &&& forall|i: int| 0 < i < n.0.len() ==> kept(#[trigger] n.0[i])
    &&& first_from(name::components_text(n.0), "?blake3="@, 0) is None
    &&& (n.1 matches Some(h) ==> sparse(h))
}

/// Hexadecimal digits are neither dots nor slashes.
proof fn lemma_hex_plain(b: Seq<u8>)
    ensures
        forall|i: int|
            0 <= i < text::hex_text(b).len() ==> #[trigger] text::hex_text(b)[i] != '.'
                && text::hex_text(b)[i] != '/',
{
    let t = text::hex_text(b);
    assert forall|i: int| 0 <= i < t.len() implies #[trigger] t[i] != '.' && t[i] != '/' by {
        let x = b[i / 2] as int;
        assert(0 <= x / 16 < 16 && 0 <= x % 16 < 16);
    }
}

/// A sparse hash is read back from its compact text.
proof fn lemma_compact_roundtrip(h: Seq<u8>, invalid: Seq<char>, length: Seq<char>)
    requires
        sparse(h),
    ensures
        expandable(name::compact_hex(h)),
        compact_hash(name::compact_hex(h), invalid, length) == Ok::<Seq<u8>, Seq<char>>(h),
{
    reveal_strlit("..");
    let s = name::compact_hex(h);
    let a = h.subrange(0, 4);
    let z = h.subrange(28, 32);
    let head = text::hex_text(a);
    let tail = text::hex_text(z);
    lemma_hex_plain(a);
    text::law_hex_roundtrip(a);
    text::law_hex_roundtrip(z);
    assert(s =~= head + ".."@ + tail);
    assert(s.subrange(8, 10) =~= ".."@);
    assert forall|j: int| 0 <= j < 8 implies !#[trigger] occurs(s, ".."@, j) by {
        assert(s[j] == head[j]);
        if occurs(s, ".."@, j) {
            assert(s.subrange(j, j + 2)[0] == '.');
        }
    }
    lemma_first_at(s, ".."@, 0, 8);
    assert(s.subrange(0, 8) =~= head);
    assert(s.subrange(10, s.len() as int) =~= tail);
    let full = head + zeros(48) + tail;
    assert(expanded(s) == full);
    assert(full =~= text::hex_text(h)) by {
        assert forall|i: int| 0 <= i < 64 implies full[i] == #[trigger] text::hex_text(h)[i] by {
            if i < 8 {
                assert(a[i / 2] == h[i / 2]);
            } else if i < 56 {
                assert(h[i / 2] == 0);
            } else {
                assert(z[(i - 56) / 2] == h[i / 2]);
            }
        }
    }
    text::law_hex_roundtrip(h);
}

/// A component that is kept has a text without slashes, which is read back.
proof fn lemma_kept_component(c: Seq<u8>)
    requires
        kept(c),
    ensures
        name::component_text(c).len() > 0,
        !name::component_text(c).contains('/'),
        text_component(name::component_text(c)) == c,
{
    let t = name::component_text(c);
    if c.len() != 32 && utf8::valid_utf8(c) {
        utf8::decode_utf8_encode_utf8(c);
        if t.len() == 0 {
            assert(t =~= Seq::empty());
            assert(utf8::encode_utf8(t).len() == 0);
        }
    } else {
        lemma_hex_plain(c);
        text::law_hex_roundtrip(c);
    }
}

/// Text without slashes goes on with the open part.
proof fn lemma_open_part(s: Seq<char>, w: Seq<char>)
    requires
        !w.contains('/'),
    ensures
        slashed(s + w) == (slashed(s).0, slashed(s).1 + w),
    decreases w.len(),
{
    if w.len() == 0 {
        assert(s + w =~= s);
        assert(slashed(s).1 + w =~= slashed(s).1);
    } else {
        let front = w.drop_last();
        assert(w.last() != '/') by {
            assert(w[w.len() - 1] == w.last());
        }
        assert(!front.contains('/')) by {
            if front.contains('/') {
                let k = choose|k: int| 0 <= k < front.len() && front[k] == '/';
                assert(w[k] == '/');
            }
        }
        lemma_open_part(s, front);
        assert((s + w).drop_last() =~= s + front);
        assert((slashed(s).1 + front).push(w.last()) =~= slashed(s).1 + w);
    }
}

/// A slash at the start makes no part.
proof fn lemma_leading_slash(s: Seq<char>)
    ensures
        slashed(seq!['/'] + s) == slashed(s),
    decreases s.len(),
{
    if s.len() == 0 {
        let one = seq!['/'] + s;
        assert(one.drop_last() =~= Seq::empty());
        assert(s =~= Seq::empty());
    } else {
        lemma_leading_slash(s.drop_last());
        assert((seq!['/'] + s).drop_last() =~= seq!['/'] + s.drop_last());
    }
}

/// The text of each component.
spec fn texts(cs: Seq<Seq<u8>>) -> Seq<Seq<char>> {
    Seq::new(cs.len(), |i: int| name::component_text(cs[i]))
}

/// The text of components falls apart into the texts of the components.
proof fn lemma_text_parts(cs: Seq<Seq<u8>>)
    requires
        cs.len() > 0,
        forall|i: int|
            0 <= i < cs.len() ==> name::component_text(#[trigger] cs[i]).len() > 0
                && !name::component_text(cs[i]).contains('/'),
    ensures
        slashed(name::components_text(cs)) == (
            texts(cs.drop_last()),
            name::component_text(cs.last()),
        ),
    decreases cs.len(),
{
    reveal_strlit("/");
    let rest = cs.drop_last();
    let before = name::components_text(rest);
    let w = name::component_text(cs.last());
    assert(w == name::component_text(cs[cs.len() - 1]));
    let s = before.push('/');
    assert(s.drop_last() =~= before);
    assert(name::components_text(cs) =~= s + w);
    if rest.len() == 0 {
        assert(before =~= Seq::empty());
        assert(slashed(before) == (Seq::<Seq<char>>::empty(), Seq::<char>::empty()));
        assert(slashed(s) == slashed(before));
        assert(texts(rest) =~= Seq::empty());
    } else {
        assert forall|i: int| 0 <= i < rest.len() implies name::component_text(
            #[trigger] rest[i],
        ).len() > 0 && !name::component_text(rest[i]).contains('/') by {
            assert(rest[i] == cs[i]);
        }
        lemma_text_parts(rest);
        assert(rest.last() == rest[rest.len() - 1]);
        assert(texts(rest.drop_last()).push(name::component_text(rest.last())) =~= texts(rest));
    }
    lemma_open_part(s, w);
    assert(Seq::<char>::empty() + w =~= w);
}

/// The text of a name is split at the mark of its content hash.
proof fn lemma_hash_split(n: NameView)
    requires
        text_safe(n),
    ensures
        hash_split(name::name_text(n)) == (
            name::components_text(n.0).subrange(1, name::components_text(n.0).len() as int),
            match n.1 {
                Some(h) => Some(name::compact_hex(h)),
                None => None,
            },
        ),
        name::components_text(n.0).len() > 1,
        name::components_text(n.0)[0] == '/',
{
    reveal_strlit("/");
    reveal_strlit("?blake3=");
    let mark = "?blake3="@;
    let whole = name::components_text(n.0);
    let s = name::name_text(n);
    lemma_text_start(n.0);
    let b = whole.subrange(1, whole.len() as int);
    let t = s.subrange(1, s.len() as int);
    assert(s[0] == '/' && s[1] == whole[1]);
    assert(t[0] != '/');
    assert(without_slashes(t) == t);
    assert(without_slashes(s) == t);
    assert forall|j: int| 0 <= j && j + 8 <= b.len() implies !#[trigger] occurs(b, mark, j) by {
        lemma_nowhere(whole, mark, 0, j + 1);
        if occurs(b, mark, j) {
            assert(whole.subrange(j + 1, j + 9) =~= b.subrange(j, j + 8));
        }
    }
    match n.1 {
        None => {
            assert(t =~= b);
            assert forall|j: int| 0 <= j < t.len() implies !#[trigger] occurs(t, mark, j) by {
                if j + 8 <= b.len() {
                    assert(!occurs(b, mark, j));
                }
            }
            lemma_not_found(t, mark, 0);
        },
        Some(h) => {
            let k = b.len() as int;
            assert(t =~= b + mark + name::compact_hex(h));
            assert(t.subrange(k, k + 8) =~= mark);
            assert forall|j: int| 0 <= j < k implies !#[trigger] occurs(t, mark, j) by {
                if occurs(t, mark, j) {
                    let found = t.subrange(j, j + 8);
                    if j + 8 <= k {
                        assert(found =~= b.subrange(j, j + 8));
                        assert(!occurs(b, mark, j));
                    } else {
                        assert(found[k - j] == t[k]);
                        assert(t[k] == mark[0]);
                    }
                }
            }
            lemma_first_at(t, mark, 0, k);
            assert(t.subrange(0, k) =~= b);
            assert(t.subrange(k + 8, t.len() as int) =~= name::compact_hex(h));
        },
    }
}

/// The text of components starts with one slash, where the first one is a hash.
proof fn lemma_text_start(cs: Seq<Seq<u8>>)
    requires
        cs.len() > 0,
        cs[0].len() == 32,
    ensures
        name::components_text(cs).len() > 1,
        name::components_text(cs)[0] == '/',
        name::components_text(cs)[1] != '/',
    decreases cs.len(),
{
    reveal_strlit("/");
    reveal_strlit("..");
    let rest = cs.drop_last();
    if rest.len() == 0 {
        let h = cs[0];
        assert(cs.last() == h);
        assert(name::components_text(rest) =~= Seq::empty());
        lemma_hex_plain(h.subrange(0, 4));
        assert(name::components_text(cs)[1] == text::hex_text(h.subrange(0, 4))[0]);
    } else {
        lemma_text_start(rest);
    }
}

/// A name is read back from its text, unless its text leaves something out: a hash is
/// written without its middle, and a component that looks like hexadecimal, holds a
/// slash or is empty is taken for something else.
pub proof fn law_name_text_roundtrip(n: NameView)
    requires
        text_safe(n),
    ensures
        readable(name::name_text(n)),
        text_name(name::name_text(n)) == Ok::<NameView, Seq<char>>(n),
{
    let s = name::name_text(n);
    let whole = name::components_text(n.0);
    let b = whole.subrange(1, whole.len() as int);
    lemma_hash_split(n);
    match n.1 {
        Some(h) => lemma_compact_roundtrip(
            h,
            "invalid hash hex: "@,
            "content hash must be 32 bytes"@,
        ),
        None => {},
    }
    assert(text_hash(s) == Ok::<Option<Seq<u8>>, Seq<char>>(n.1));
    lemma_compact_roundtrip(
        n.0[0],
        "invalid producer hash hex: "@,
        "producer hash must be 32 bytes"@,
    );
    assert forall|i: int| 0 <= i < n.0.len() implies name::component_text(#[trigger] n.0[i]).len()
        > 0 && !name::component_text(n.0[i]).contains('/') by {
        if i == 0 {
            lemma_compact_plain(n.0[0]);
        } else {
            lemma_kept_component(n.0[i]);
        }
    }
    lemma_text_parts(n.0);
    lemma_leading_slash(b);
    assert(seq!['/'] + b =~= whole);
    let parts = parts_of(b);
    assert(n.0.last() == n.0[n.0.len() - 1]);
    assert(parts =~= texts(n.0));
    let read = seq![n.0[0]] + Seq::new(
        (parts.len() - 1) as nat,
        |i: int| text_component(parts[i + 1]),
    );
    assert forall|i: int| 0 <= i < n.0.len() implies read[i] == #[trigger] n.0[i] by {
        if i > 0 {
            lemma_kept_component(n.0[i]);
            assert(parts[i] == name::component_text(n.0[i]));
        }
    }
    assert(read =~= n.0);
}

/// The compact text of a hash holds no slash.
proof fn lemma_compact_plain(h: Seq<u8>)
    requires
        h.len() == 32,
    ensures
        name::component_text(h).len() > 0,
        !name::component_text(h).contains('/'),
{
    reveal_strlit("..");
    lemma_hex_plain(h.subrange(0, 4));
    lemma_hex_plain(h.subrange(28, 32));
    let t = name::component_text(h);
    if t.contains('/') {
        let k = choose|k: int| 0 <= k < t.len() && t[k] == '/';
        if k < 8 {
            assert(t[k] == text::hex_text(h.subrange(0, 4))[k]);
        } else if k >= 10 {
            assert(t[k] == text::hex_text(h.subrange(28, 32))[k - 10]);
        }
    }
}

/// Whether `pat` occurs in `s` at `i`.
fn occurs_at(s: &[char], pat: &[char], i: usize) -> (r: bool)
    requires
        i <= s@.len(),
    ensures
        r <==> occurs(s@, pat@, i as int),
{
    if pat.len() > s.len() - i {
        return false;
    }
    let mut k: usize = 0;
    while k < pat.len()
        invariant
            k <= pat@.len(),
            i + pat.len() <= s.len(),
            s.len() == s@.len(),
            pat.len() == pat@.len(),
            forall|j: int| 0 <= j < k ==> s@[i + j] == pat@[j],
        decreases pat@.len() - k,
    {
        if s[i + k] != pat[k] {
            proof {
                if s@.subrange(i as int, i + pat@.len()) == pat@ {
                    assert(s@.subrange(i as int, i + pat@.len())[k as int] == pat@[k as int]);
                }
            }
            return false;
        }
        k = k + 1;
    }
    assert(s@.subrange(i as int, i + pat@.len()) =~= pat@);
    true
}

/// Where `pat` first occurs in `s`.
fn find_text(s: &[char], pat: &str) -> (r: Option<usize>)
    ensures
        (match r {
            Some(i) => first_from(s@, pat@, 0) == Some(i as int) && occurs(s@, pat@, i as int),
            None => first_from(s@, pat@, 0) is None,
        }),
{
    let wanted: Vec<char> = text::chars_of(pat);
    let mut i: usize = 0;
    while i < s.len()
        invariant
            i <= s@.len(),
            wanted@ == pat@,
            first_from(s@, pat@, 0) == first_from(s@, pat@, i as int),
        decreases s@.len() - i,
    {
        if occurs_at(s, wanted.as_slice(), i) {
            return Some(i);
        }
        i = i + 1;
    }
    None
}

/// The length of a text in UTF-8.
fn text_len(s: &[char]) -> (n: usize)
    ensures
        n == utf8_len(s@),
{
    let t: String = text::string_of(s);
    let bytes: &[u8] = t.as_str().as_bytes();
    bytes.len()
}

/// Replaces the first two dots by zeros, up to 64 digits.
pub fn expand_compact_hex(compact: &str) -> (r: String)
    requires
        expandable(compact@),
    ensures
        r@ == expanded(compact@),
{
    let chars: Vec<char> = text::chars_of(compact);
    expand(chars.as_slice())
}

fn expand(s: &[char]) -> (r: String)
    requires
        expandable(s@),
    ensures
        r@ == expanded(s@),
{
    proof {
        reveal_strlit("..");
    }
    match find_text(s, "..") {
        None => text::string_of(s),
        Some(i) => {
            assert(i + 2 <= s.len());
            let head: &[char] = vstd::slice::slice_subrange(s, 0, i);
            let tail: &[char] = vstd::slice::slice_subrange(s, i + 2, s.len());
            let n: usize = 64 - text_len(head) - text_len(tail);
            let mut out: Vec<char> = Vec::new();
            push_chars(&mut out, head);
            let ghost before = out@;
            let mut k: usize = 0;
            assert(out@ =~= before + zeros(0));
            while k < n
                invariant
                    k <= n,
                    out@ == before + zeros(k as nat),
                decreases n - k,
            {
                out.push('0');
                k = k + 1;
                assert(out@ =~= before + zeros(k as nat));
            }
            push_chars(&mut out, tail);
            assert(out@ =~= expanded(s@));
            text::string_of(out.as_slice())
        },
    }
}

/// Appends characters.
fn push_chars(out: &mut Vec<char>, s: &[char])
    ensures
        final(out)@ == old(out)@ + s@,
{
    let ghost before = out@;
    let mut i: usize = 0;
    assert(out@ =~= before + s@.subrange(0, 0));
    while i < s.len()
        invariant
            i <= s@.len(),
            out@ == before + s@.subrange(0, i as int),
        decreases s@.len() - i,
    {
        out.push(s[i]);
        i = i + 1;
        assert(out@ =~= before + s@.subrange(0, i as int));
    }
    assert(s@.subrange(0, i as int) =~= s@);
}

/// Whether two dots can stand for zeros up to 64 digits.
fn is_expandable(s: &[char]) -> (r: bool)
    ensures
        r <==> expandable(s@),
{
    proof {
        reveal_strlit("..");
    }
    match find_text(s, "..") {
        None => true,
        Some(i) => {
            assert(i + 2 <= s.len());
            let head: usize = text_len(vstd::slice::slice_subrange(s, 0, i));
            let tail: usize = text_len(vstd::slice::slice_subrange(s, i + 2, s.len()));
            head <= 64 && tail <= 64 - head
        },
    }
}

/// Reads a 32-byte hash.
fn read_hash(s: &[char], invalid: &str, length: &str) -> (r: Result<[u8; 32], String>)
    requires
        expandable(s@),
    ensures
        (match r {
            Ok(h) => compact_hash(s@, invalid@, length@) == Ok::<Seq<u8>, Seq<char>>(h@),
            Err(e) => compact_hash(s@, invalid@, length@) == Err::<Seq<u8>, Seq<char>>(e@),
        }),
{
    let full: String = expand(s);
    match text::hex_decode(full.as_str()) {
        Ok(bytes) => {
            if bytes.len() == 32 {
                let h: [u8; 32] = wire::read_32(bytes.as_slice(), 0);
                assert(h@ =~= bytes@);
                Ok(h)
            } else {
                Err(length.to_owned())
            }
        },
        Err(e) => Err(text::join(invalid, e.as_str())),
    }
}

/// The characters of each vector.
pub open spec fn all_chars(v: Seq<Vec<char>>) -> Seq<Seq<char>> {
    Seq::new(v.len(), |i: int| v[i]@)
}

/// The parts of `s` between slashes.
fn split_slashes(s: &[char]) -> (parts: Vec<Vec<char>>)
    ensures
        all_chars(parts@) == parts_of(s@),
        forall|i: int| 0 <= i < parts@.len() ==> (#[trigger] parts@[i])@ == parts_of(s@)[i],
{
    let mut parts: Vec<Vec<char>> = Vec::new();
    let mut open: Vec<char> = Vec::new();
    let mut i: usize = 0;
    proof {
        assert(s@.subrange(0, 0) =~= Seq::empty());
        assert(all_chars(parts@) =~= Seq::empty());
        assert(open@ =~= Seq::empty());
    }
    while i < s.len()
        invariant
            i <= s@.len(),
            (all_chars(parts@), open@) == slashed(s@.subrange(0, i as int)),
        decreases s@.len() - i,
    {
        let ghost before = parts@;
        proof {
            let now = s@.subrange(0, i + 1);
            assert(now.drop_last() =~= s@.subrange(0, i as int));
            assert(now.last() == s@[i as int]);
        }
        if s[i] != '/' {
            open.push(s[i]);
        } else if open.len() > 0 {
            parts.push(open);
            open = Vec::new();
            proof {
                assert(all_chars(parts@) =~= all_chars(before).push(parts@.last()@));
                assert(open@ =~= Seq::empty());
            }
        }
        i = i + 1;
    }
    assert(s@.subrange(0, i as int) =~= s@);
    if open.len() > 0 {
        let ghost before = parts@;
        parts.push(open);
        assert(all_chars(parts@) =~= all_chars(before).push(parts@.last()@));
    }
    assert forall|i: int| 0 <= i < parts@.len() implies (#[trigger] parts@[i])@ == parts_of(
        s@,
    )[i] by {
        assert(all_chars(parts@)[i] == parts@[i]@);
    }
    parts
}

/// How many slashes stand at the start.
fn leading_slashes(s: &[char]) -> (n: usize)
    ensures
        n <= s@.len(),
        s@.subrange(n as int, s@.len() as int) == without_slashes(s@),
{
    let mut n: usize = 0;
    assert(s@.subrange(0, s@.len() as int) =~= s@);
    while n < s.len() && s[n] == '/'
        invariant
            n <= s@.len(),
            s.len() == s@.len(),
            without_slashes(s@) == without_slashes(s@.subrange(n as int, s@.len() as int)),
        decreases s@.len() - n,
    {
        let ghost rest = s@.subrange(n as int, s@.len() as int);
        assert(rest.subrange(1, rest.len() as int) =~= s@.subrange(n + 1, s@.len() as int));
        n = n + 1;
    }
    n
}

/// The text in front of the content hash, and the text of the hash.
fn split_hash(s: &[char]) -> (r: (Vec<char>, Option<Vec<char>>))
    ensures
        hash_split(s@).0 == r.0@,
        (match r.1 {
            Some(h) => hash_split(s@).1 == Some(h@),
            None => hash_split(s@).1 is None,
        }),
{
    proof {
        reveal_strlit("?blake3=");
    }
    let n: usize = leading_slashes(s);
    let rest: &[char] = vstd::slice::slice_subrange(s, n, s.len());
    match find_text(rest, "?blake3=") {
        Some(i) => {
            let mut head: Vec<char> = Vec::new();
            push_chars(&mut head, vstd::slice::slice_subrange(rest, 0, i));
            let mut tail: Vec<char> = Vec::new();
            push_chars(&mut tail, vstd::slice::slice_subrange(rest, i + 8, rest.len()));
            assert(head@ =~= rest@.subrange(0, i as int));
            assert(tail@ =~= rest@.subrange(i + 8, rest@.len() as int));
            (head, Some(tail))
        },
        None => {
            let mut head: Vec<char> = Vec::new();
            push_chars(&mut head, rest);
            assert(head@ =~= rest@);
            (head, None)
        },
    }
}

/// Whether the hashes in the text of a name are short enough to be expanded.
pub fn is_readable(s: &str) -> (r: bool)
    ensures
        r <==> readable(s@),
{
    let chars: Vec<char> = text::chars_of(s);
    let (head, tail) = split_hash(chars.as_slice());
    match &tail {
        Some(h) => {
            if !is_expandable(h.as_slice()) {
                return false;
            }
            match read_hash(h.as_slice(), "invalid hash hex: ", "content hash must be 32 bytes") {
                Ok(_) => {},
                Err(_) => {
                    return true;
                },
            }
        },
        None => {},
    }
    let parts: Vec<Vec<char>> = split_slashes(head.as_slice());
    if parts.len() == 0 {
        return true;
    }
    is_expandable(parts[0].as_slice())
}

/// Reads a name from its text.
pub fn parse_name_from_display(s: &str) -> (r: Result<Name, String>)
    requires
        readable(s@),
    ensures
        (match r {
            Ok(n) => text_name(s@) == Ok::<NameView, Seq<char>>(n@),
            Err(e) => text_name(s@) == Err::<NameView, Seq<char>>(e@),
        }),
{
    let chars: Vec<char> = text::chars_of(s);
    let (head, tail) = split_hash(chars.as_slice());
    let content_hash: Option<[u8; 32]> = match &tail {
        Some(h) => {
            match read_hash(h.as_slice(), "invalid hash hex: ", "content hash must be 32 bytes") {
                Ok(b) => Some(b),
                Err(e) => {
                    return Err(e);
                },
            }
        },
        None => None,
    };
    let parts: Vec<Vec<char>> = split_slashes(head.as_slice());
    let ghost texts = parts_of(head@);
    if parts.len() == 0 {
        return Err("name must have at least a producer hash".to_owned());
    }
    let producer: [u8; 32] = match read_hash(
        parts[0].as_slice(),
        "invalid producer hash hex: ",
        "producer hash must be 32 bytes",
    ) {
        Ok(p) => p,
        Err(e) => {
            return Err(e);
        },
    };
    let mut components: Vec<Vec<u8>> = Vec::new();
    components.push(wire::copy_all(producer.as_slice()));
    let mut i: usize = 1;
    while i < parts.len()
        invariant
            1 <= i <= parts@.len(),
            parts@.len() == texts.len(),
            forall|j: int| 0 <= j < parts@.len() ==> (#[trigger] parts@[j])@ == texts[j],
            components@.len() == i,
            components@[0]@ == producer@,
            forall|j: int|
                1 <= j < i ==> (#[trigger] components@[j])@ == text_component(texts[j]),
        decreases parts@.len() - i,
    {
        let part: String = text::string_of(parts[i].as_slice());
        let bytes: Vec<u8> = match text::hex_decode(part.as_str()) {
            Ok(b) => b,
            Err(_) => wire::copy_all(part.as_str().as_bytes()),
        };
        components.push(bytes);
        i = i + 1;
    }
    assert(wire::all_bytes(components@)[0] == producer@);
    let name: Name = Name::from_parts(components, content_hash);
    proof {
        let expected = seq![producer@] + Seq::new(
            (texts.len() - 1) as nat,
            |i: int| text_component(texts[i + 1]),
        );
        assert forall|j: int| 0 <= j < expected.len() implies name@.0[j] == expected[j] by {
            if j > 0 {
                assert(components@[j]@ == text_component(texts[j]));
            }
        }
        assert(name@.0 =~= expected);
    }
    Ok(name)
}

/// The manifest of a producer is Data under the producer's name and the word for it, with
/// the manifest's number; whoever knows the producer's keys accepts it, and reads the
/// manifest back from it.
pub proof fn law_manifest_data(
    m: &Manifest,
    content: Vec<u8>,
    keys: &Keys,
    d: Data,
    known: Map<Seq<u8>, Keys>,
    parsed: Manifest,
    r: Result<Manifest, ManifestError>,
)
    requires
        call_ensures(Manifest::to_data, (m, content, keys), d),
        known.dom().contains(m.producer@),
        known[m.producer@].identity() == keys.identity(),
        call_ensures(Manifest::from_data, (&d, Ok(parsed)), r),
    ensures
        crate::icn::forwarder::complaint(known, d@) is None,
        d@.name.0.len() == 2 && d@.name.0[0] == m.producer@ && d@.name.0[1] == utf8::encode_utf8(
            "manifest"@,
        ) && d@.name.1 is None,
        d@.content == content@,
        d@.metadata.sequence == Some(m.sequence),
        r == Ok::<Manifest, ManifestError>(parsed),
{
    assert(d@.name == d.name@);
}

/// A manifest is not read from Data whose content does not have the hash that it tells.
pub proof fn law_spoiled_manifest_is_refused(
    d: &Data,
    parsed: Result<Manifest, String>,
    r: Result<Manifest, ManifestError>,
)
    requires
        call_ensures(Manifest::from_data, (d, parsed), r),
    ensures
        r is Ok <==> parsed is Ok && (d@.metadata.content_hash matches Some(h) ==> h
            == primitives::blake3_digest(d@.content)),
        r matches Ok(m) ==> parsed == Ok::<Manifest, String>(m),
{
}

/// What is found by its label is the first entry with that label; nothing is found only
/// where there is none. A manifest is newer than those with a lower number.
pub proof fn law_entries_by_label(
    m: &Manifest,
    label: &str,
    r: Option<&ManifestEntry>,
    seq: u64,
    newer: bool,
)
    requires
        call_ensures(Manifest::find, (m, label), r),
        call_ensures(Manifest::is_newer_than, (m, seq), newer),
    ensures
        r matches Some(e) ==> e.label@ == label@ && exists|i: int|
            0 <= i < m.entries@.len() && #[trigger] m.entries@[i] == *e,
        r is None <==> forall|i: int|
            0 <= i < m.entries@.len() ==> (#[trigger] m.entries@[i]).label@ != label@,
        newer <==> seq < m.sequence,
{
    if let Some(e) = r {
        let i = choose|i: int|
            0 <= i < m.entries@.len() && #[trigger] m.entries@[i] == *e && e.label@ == label@
                && forall|j: int| 0 <= j < i ==> (#[trigger] m.entries@[j]).label@ != label@;
        assert(m.entries@[i].label@ == label@);
    }
}

/// A short form of a hash stands for the digits in front of its two dots, those behind
/// them, and as many zeros in between as make 64 digits.
pub proof fn law_short_hash(head: Seq<char>, tail: Seq<char>, k: int)
    requires
        first_from(head + ".."@ + tail, ".."@, 0) == Some(head.len() as int),
        utf8_len(head) + utf8_len(tail) <= 64,
        0 <= k < 64 - utf8_len(head) - utf8_len(tail),
    ensures
        ({
            let s = expanded(head + ".."@ + tail);
            &&& s.len() == head.len() + tail.len() + (64 - utf8_len(head) - utf8_len(tail))
            &&& s.subrange(0, head.len() as int) == head
            &&& s.subrange(s.len() - tail.len(), s.len() as int) == tail
            &&& s[head.len() + k] == '0'
        }),
{
    reveal_strlit("..");
    let t = head + ".."@ + tail;
    assert(t.subrange(0, head.len() as int) =~= head);
    assert(t.subrange(head.len() as int + 2, t.len() as int) =~= tail);
    let s = expanded(t);
    assert(s.subrange(0, head.len() as int) =~= head);
    assert(s.subrange(s.len() - tail.len(), s.len() as int) =~= tail);
}

} // verus!
