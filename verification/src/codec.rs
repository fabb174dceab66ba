//! Records in the fixed-width little-endian layout of the `bincode` crate: an integer
//! takes as many bytes as its type, a byte string carries its length in eight bytes in
//! front.

use crate::text;
use crate::wire;
use serde_bytes::ByteArray;
use vstd::prelude::*;

verus! {

/// A byte string behind its length.
pub open spec fn counted(b: Seq<u8>) -> Seq<u8> {
    wire::le(b.len(), 8) + b
}

/// The counted byte string at `pos`, and where it ends.
pub open spec fn take_counted(b: Seq<u8>, pos: int) -> Option<(Seq<u8>, int)> {
    if pos + 8 <= b.len() {
        let n = wire::le_value(b.subrange(pos, pos + 8));
        if pos + 8 + n <= b.len() {
            Some((b.subrange(pos + 8, pos + 8 + n), pos + 8 + n))
        } else {
            None
        }
    } else {
        None
    }
}

/// The integer of `n` bytes at `pos`, and where it ends.
pub open spec fn take_int(b: Seq<u8>, pos: int, n: nat) -> Option<(nat, int)> {
    if pos + n <= b.len() {
        Some((wire::le_value(b.subrange(pos, pos + n)), pos + n))
    } else {
        None
    }
}

/// A record of two byte strings, an integer and a byte string.
pub open spec fn signed_record(a: Seq<u8>, b: Seq<u8>, n: u64, c: Seq<u8>) -> Seq<u8> {
    counted(a) + counted(b) + wire::le(n as nat, 8) + counted(c)
}

/// The fields of such a record. What follows them is ignored.
pub open spec fn signed_fields(r: Seq<u8>) -> Option<(Seq<u8>, Seq<u8>, nat, Seq<u8>)> {
    match take_counted(r, 0) {
        Some((a, p1)) => match take_counted(r, p1) {
            Some((b, p2)) => match take_int(r, p2, 8) {
                Some((n, p3)) => match take_counted(r, p3) {
                    Some((c, _)) => Some((a, b, n, c)),
                    None => None,
                },
                None => None,
            },
            None => None,
        },
        None => None,
    }
}

/// A counted byte string is read back, wherever it stands.
pub proof fn lemma_take_counted(before: Seq<u8>, b: Seq<u8>, after: Seq<u8>)
    requires
        b.len() <= u64::MAX,
    ensures
        take_counted(before + counted(b) + after, before.len() as int) == Some(
            (b, (before.len() + 8 + b.len()) as int),
        ),
{
    let whole = before + counted(b) + after;
    let pos = before.len() as int;
    wire::lemma_pow256_values();
    wire::lemma_le_roundtrip(b.len(), 8);
    assert(whole.subrange(pos, pos + 8) =~= wire::le(b.len(), 8));
    assert(whole.subrange(pos + 8, pos + 8 + b.len()) =~= b);
}

/// An integer is read back, wherever it stands.
pub proof fn lemma_take_int(before: Seq<u8>, x: nat, n: nat, after: Seq<u8>)
    requires
        x < wire::pow256(n),
    ensures
        take_int(before + wire::le(x, n) + after, before.len() as int, n) == Some(
            (x, (before.len() + n) as int),
        ),
{
    let whole = before + wire::le(x, n) + after;
    let pos = before.len() as int;
    wire::lemma_le_roundtrip(x, n);
    assert(whole.subrange(pos, pos + n) =~= wire::le(x, n));
}

/// The fields of a record are read back from it.
pub proof fn lemma_signed_record(a: Seq<u8>, b: Seq<u8>, n: u64, c: Seq<u8>)
    requires
        a.len() <= u64::MAX,
        b.len() <= u64::MAX,
        c.len() <= u64::MAX,
    ensures
        signed_fields(signed_record(a, b, n, c)) == Some((a, b, n as nat, c)),
{
    let r = signed_record(a, b, n, c);
    let num = wire::le(n as nat, 8);
    wire::lemma_pow256_values();
    wire::lemma_le_roundtrip(n as nat, 8);
    wire::lemma_le_roundtrip(a.len(), 8);
    wire::lemma_le_roundtrip(b.len(), 8);
    wire::lemma_le_roundtrip(c.len(), 8);
    let empty = Seq::<u8>::empty();
    lemma_take_counted(empty, a, counted(b) + num + counted(c));
    assert(r =~= empty + counted(a) + (counted(b) + num + counted(c)));
    lemma_take_counted(counted(a), b, num + counted(c));
    assert(r =~= counted(a) + counted(b) + (num + counted(c)));
    lemma_take_int(counted(a) + counted(b), n as nat, 8, counted(c));
    assert(r =~= counted(a) + counted(b) + num + counted(c));
    lemma_take_counted(counted(a) + counted(b) + num, c, empty);
    assert(r =~= counted(a) + counted(b) + num + counted(c) + empty);
}

/// The fields that were read, over byte sequences.
pub open spec fn signed_view(r: Result<([u8; 32], [u8; 32], u64, [u8; 64]), String>) -> Option<
    (Seq<u8>, Seq<u8>, nat, Seq<u8>),
> {
    match r {
        Ok((a, b, n, c)) => Some((a@, b@, n as nat, c@)),
        Err(_) => None,
    }
}

/// The fields of a record in which the byte strings have 32, 32 and 64 bytes.
pub open spec fn sized_fields(r: Seq<u8>) -> Option<(Seq<u8>, Seq<u8>, nat, Seq<u8>)> {
    match signed_fields(r) {
        Some((a, b, n, c)) => if a.len() == 32 && b.len() == 32 && c.len() == 64 {
            Some((a, b, n, c))
        } else {
            None
        },
        None => None,
    }
}

/// Whether lengths of 64 bits fit in memory sizes. Where they do not, a decoder says
/// other things of a length that is too large.
pub open spec fn wide() -> bool {
    usize::MAX == u64::MAX
}

/// What `bincode::deserialize` says of bytes that hold no such record.
pub uninterp spec fn signed_complaint(data: Seq<u8>) -> Seq<char>;

/// `bincode::serialize` of two byte strings, an integer and a byte string.
#[verifier::external_body]
pub(crate) fn encode_signed(a: &[u8], b: &[u8], n: u64, c: &[u8]) -> (out: Vec<u8>)
    ensures
        out@ == signed_record(a@, b@, n, c@),
{
    bincode::serialize(&(a, b, n, c)).expect("plain values serialize")
}

/// `bincode::deserialize` of such a record into `serde_bytes::ByteArray`s of 32, 32 and 64
/// bytes: its fields where the bytes hold them in these lengths, or the crates' description
/// of the error, which is named for machines with memory sizes of 64 bits.
#[verifier::external_body]
pub(crate) fn decode_signed(data: &[u8]) -> (r: Result<([u8; 32], [u8; 32], u64, [u8; 64]), String>)
    ensures
        signed_view(r) == sized_fields(data@),
        wide() ==> (r matches Err(e) ==> e@ == signed_complaint(data@)),
{
    bincode::deserialize(data)
        .map(|(a, b, n, c): (ByteArray<32>, ByteArray<32>, u64, ByteArray<64>)| {
            (a.into_array(), b.into_array(), n, c.into_array())
        })
        .map_err(|e| e.to_string())
}

// --- Segments of a resource ---

/// A record of a byte string, two 32-bit integers and two byte strings.
pub open spec fn segment_record(
    hash: Seq<u8>,
    index: u32,
    total: u32,
    data: Seq<u8>,
    checksum: Seq<u8>,
) -> Seq<u8> {
    counted(hash) + wire::le(index as nat, 4) + wire::le(total as nat, 4) + counted(data) + counted(
        checksum,
    )
}

/// The fields of such a record. What follows them is ignored.
pub open spec fn segment_fields(r: Seq<u8>) -> Option<(Seq<u8>, nat, nat, Seq<u8>, Seq<u8>)> {
    match take_counted(r, 0) {
        Some((hash, p1)) => match take_int(r, p1, 4) {
            Some((index, p2)) => match take_int(r, p2, 4) {
                Some((total, p3)) => match take_counted(r, p3) {
                    Some((data, p4)) => match take_counted(r, p4) {
                        Some((checksum, _)) => Some((hash, index, total, data, checksum)),
                        None => None,
                    },
                    None => None,
                },
                None => None,
            },
            None => None,
        },
        None => None,
    }
}

/// The fields of a record are read back from it.
pub proof fn lemma_segment_record(
    hash: Seq<u8>,
    index: u32,
    total: u32,
    data: Seq<u8>,
    checksum: Seq<u8>,
)
    requires
        hash.len() <= u64::MAX,
        data.len() <= u64::MAX,
        checksum.len() <= u64::MAX,
    ensures
        segment_fields(segment_record(hash, index, total, data, checksum)) == Some(
            (hash, index as nat, total as nat, data, checksum),
        ),
{
    let r = segment_record(hash, index, total, data, checksum);
    let empty = Seq::<u8>::empty();
    let i = wire::le(index as nat, 4);
    let t = wire::le(total as nat, 4);
    wire::lemma_pow256_values();
    wire::lemma_le_roundtrip(hash.len(), 8);
    wire::lemma_le_roundtrip(data.len(), 8);
    wire::lemma_le_roundtrip(index as nat, 4);
    wire::lemma_le_roundtrip(total as nat, 4);
    let after1 = i + t + counted(data) + counted(checksum);
    lemma_take_counted(empty, hash, after1);
    assert(r =~= empty + counted(hash) + after1);
    let after2 = t + counted(data) + counted(checksum);
    lemma_take_int(counted(hash), index as nat, 4, after2);
    assert(r =~= counted(hash) + i + after2);
    let after3 = counted(data) + counted(checksum);
    lemma_take_int(counted(hash) + i, total as nat, 4, after3);
    assert(r =~= counted(hash) + i + t + after3);
    lemma_take_counted(counted(hash) + i + t, data, counted(checksum));
    assert(r =~= counted(hash) + i + t + counted(data) + counted(checksum));
    lemma_take_counted(counted(hash) + i + t + counted(data), checksum, empty);
    assert(r =~= counted(hash) + i + t + counted(data) + counted(checksum) + empty);
}

/// The fields that were read, over byte sequences.
pub open spec fn segment_view(r: Result<(Vec<u8>, u32, u32, Vec<u8>, Vec<u8>), String>) -> Option<
    (Seq<u8>, nat, nat, Seq<u8>, Seq<u8>),
> {
    match r {
        Ok((hash, index, total, data, checksum)) => Some(
            (hash@, index as nat, total as nat, data@, checksum@),
        ),
        Err(_) => None,
    }
}

/// `bincode::serialize` of a byte string, two 32-bit integers and two byte strings.
#[verifier::external_body]
pub(crate) fn encode_segment(
    hash: &[u8],
    index: u32,
    total: u32,
    data: &[u8],
    checksum: &[u8],
) -> (out: Vec<u8>)
    ensures
        out@ == segment_record(hash@, index, total, data@, checksum@),
{
    bincode::serialize(&(hash, index, total, data, checksum)).expect("plain values serialize")
}

/// `bincode::deserialize` of such a record: its fields where the bytes hold them, or
/// the crate's description of the error, of whose words nothing is claimed.
#[verifier::external_body]
pub(crate) fn decode_segment(bytes: &[u8]) -> (r: Result<
    (Vec<u8>, u32, u32, Vec<u8>, Vec<u8>),
    String,
>)
    ensures
        segment_view(r) == segment_fields(bytes@),
{
    bincode::deserialize(bytes).map_err(|e| e.to_string())
}

// --- Suspended sessions ---

/// Counted byte strings, one after the other.
pub open spec fn counted_all(v: Seq<Seq<u8>>) -> Seq<u8>
    decreases v.len(),
{
    if v.len() == 0 {
        Seq::empty()
    } else {
        counted(v[0]) + counted_all(v.subrange(1, v.len() as int))
    }
}

/// `n` counted byte strings at `pos`, and where they end.
pub open spec fn take_all(b: Seq<u8>, pos: int, n: nat) -> Option<(Seq<Seq<u8>>, int)>
    decreases n,
{
    if n == 0 {
        Some((Seq::empty(), pos))
    } else {
        match take_counted(b, pos) {
            Some((x, p)) => match take_all(b, p, (n - 1) as nat) {
                Some((rest, q)) => Some((seq![x] + rest, q)),
                None => None,
            },
            None => None,
        }
    }
}

/// A list of byte strings, behind its length, at `pos`, and where it ends.
pub open spec fn take_list(b: Seq<u8>, pos: int) -> Option<(Seq<Seq<u8>>, int)> {
    match take_int(b, pos, 8) {
        Some((n, p)) => take_all(b, p, n),
        None => None,
    }
}

/// Counted byte strings are read back, wherever they stand.
pub proof fn lemma_take_all(before: Seq<u8>, v: Seq<Seq<u8>>, after: Seq<u8>)
    requires
        forall|i: int| 0 <= i < v.len() ==> (#[trigger] v[i]).len() <= u64::MAX,
    ensures
        take_all(before + counted_all(v) + after, before.len() as int, v.len()) == Some(
            (v, (before.len() + counted_all(v).len()) as int),
        ),
    decreases v.len(),
{
    let whole = before + counted_all(v) + after;
    if v.len() == 0 {
        assert(v =~= Seq::empty());
    } else {
        let rest = v.subrange(1, v.len() as int);
        assert(v[0].len() <= u64::MAX);
        lemma_take_counted(before, v[0], counted_all(rest) + after);
        assert(whole =~= before + counted(v[0]) + (counted_all(rest) + after));
        wire::lemma_pow256_values();
        wire::lemma_le_roundtrip(v[0].len(), 8);
        assert forall|i: int| 0 <= i < rest.len() implies (#[trigger] rest[i]).len() <= u64::MAX by {
            assert(v[i + 1].len() <= u64::MAX);
        }
        lemma_take_all(before + counted(v[0]), rest, after);
        assert(whole =~= before + counted(v[0]) + counted_all(rest) + after);
        assert(seq![v[0]] + rest =~= v);
    }
}

/// The fields of a suspended session.
#[verifier::ext_equal]
pub struct SessionFields {
    pub session_id: Seq<u8>,
    pub remote_rns: Seq<u8>,
    pub local_rns: Seq<u8>,
    pub remote_identity_key: Seq<u8>,
    pub remote_encryption_key: Seq<u8>,
    pub derived_key_bytes: Seq<u8>,
    pub held_messages: Seq<Seq<u8>>,
    pub suspended_at: nat,
    pub resume_count: nat,
}

impl SessionFields {
    /// Whether every length and number fits its place in a record.
    pub open spec fn fits(&self) -> bool {
        &&& self.session_id.len() <= u64::MAX
        &&& self.remote_rns.len() <= u64::MAX
        &&& self.local_rns.len() <= u64::MAX
        &&& self.remote_identity_key.len() <= u64::MAX
        &&& self.remote_encryption_key.len() <= u64::MAX
        &&& self.derived_key_bytes.len() <= u64::MAX
        &&& self.held_messages.len() <= u64::MAX
        &&& forall|i: int|
            0 <= i < self.held_messages.len() ==> (#[trigger] self.held_messages[i]).len()
                <= u64::MAX
        &&& self.suspended_at <= u64::MAX
        &&& self.resume_count <= u32::MAX
    }
}

/// The six byte strings at the head of a session record.
pub open spec fn session_head(f: SessionFields) -> Seq<u8> {
    counted(f.session_id) + counted(f.remote_rns) + counted(f.local_rns) + counted(
        f.remote_identity_key,
    ) + counted(f.remote_encryption_key) + counted(f.derived_key_bytes)
}

/// The record of a session.
pub open spec fn session_record(f: SessionFields) -> Seq<u8> {
    session_head(f) + wire::le(f.held_messages.len(), 8) + counted_all(f.held_messages) + wire::le(
        f.suspended_at,
        8,
    ) + wire::le(f.resume_count, 4)
}

/// The six byte strings at the head of a record, and where they end.
pub open spec fn take_head(b: Seq<u8>) -> Option<(Seq<Seq<u8>>, int)> {
    take_all(b, 0, 6)
}

/// The fields of a session record. What follows them is ignored.
pub open spec fn session_fields(b: Seq<u8>) -> Option<SessionFields> {
    match take_head(b) {
        Some((h, p1)) => match take_list(b, p1) {
            Some((held, p2)) => match take_int(b, p2, 8) {
                Some((at, p3)) => match take_int(b, p3, 4) {
                    Some((count, _)) => Some(
                        SessionFields {
                            session_id: h[0],
                            remote_rns: h[1],
                            local_rns: h[2],
                            remote_identity_key: h[3],
                            remote_encryption_key: h[4],
                            derived_key_bytes: h[5],
                            held_messages: held,
                            suspended_at: at,
                            resume_count: count,
                        },
                    ),
                    None => None,
                },
                None => None,
            },
            None => None,
        },
        None => None,
    }
}

proof fn lemma_head_is_list(f: SessionFields)
    ensures
        session_head(f) == counted_all(
            seq![
                f.session_id,
                f.remote_rns,
                f.local_rns,
                f.remote_identity_key,
                f.remote_encryption_key,
                f.derived_key_bytes,
            ],
        ),
{
    let a = f.session_id;
    let b = f.remote_rns;
    let c = f.local_rns;
    let d = f.remote_identity_key;
    let e = f.remote_encryption_key;
    let g = f.derived_key_bytes;
    let v6 = seq![a, b, c, d, e, g];
    let v5 = seq![b, c, d, e, g];
    let v4 = seq![c, d, e, g];
    let v3 = seq![d, e, g];
    let v2 = seq![e, g];
    let v1 = seq![g];
    assert(v6.subrange(1, 6) =~= v5);
    assert(v5.subrange(1, 5) =~= v4);
    assert(v4.subrange(1, 4) =~= v3);
    assert(v3.subrange(1, 3) =~= v2);
    assert(v2.subrange(1, 2) =~= v1);
    assert(v1.subrange(1, 1) =~= Seq::empty());
    assert(counted_all(Seq::<Seq<u8>>::empty()) =~= Seq::<u8>::empty());
    assert(counted_all(v1) =~= counted(g));
    assert(counted_all(v2) =~= counted(e) + counted(g));
    assert(counted_all(v3) =~= counted(d) + counted(e) + counted(g));
    assert(counted_all(v4) =~= counted(c) + counted(d) + counted(e) + counted(g));
    assert(counted_all(v5) =~= counted(b) + counted(c) + counted(d) + counted(e) + counted(g));
    assert(counted_all(v6) =~= session_head(f));
}

/// The fields of a session are read back from its record.
pub proof fn lemma_session_record(f: SessionFields)
    requires
        f.fits(),
    ensures
        session_fields(session_record(f)) == Some(f),
{
    let r = session_record(f);
    let head = session_head(f);
    let v = seq![
        f.session_id,
        f.remote_rns,
        f.local_rns,
        f.remote_identity_key,
        f.remote_encryption_key,
        f.derived_key_bytes,
    ];
    let empty = Seq::<u8>::empty();
    let n = wire::le(f.held_messages.len(), 8);
    let held = counted_all(f.held_messages);
    let at = wire::le(f.suspended_at, 8);
    let count = wire::le(f.resume_count, 4);
    wire::lemma_pow256_values();
    wire::lemma_le_roundtrip(f.held_messages.len(), 8);
    wire::lemma_le_roundtrip(f.suspended_at, 8);
    wire::lemma_le_roundtrip(f.resume_count, 4);
    lemma_head_is_list(f);
    assert forall|i: int| 0 <= i < v.len() implies (#[trigger] v[i]).len() <= u64::MAX by {}
    lemma_take_all(empty, v, n + held + at + count);
    assert(r =~= empty + counted_all(v) + (n + held + at + count));
    assert(take_head(r) == Some((v, head.len() as int)));
    lemma_take_int(head, f.held_messages.len(), 8, held + at + count);
    assert(r =~= head + n + (held + at + count));
    lemma_take_all(head + n, f.held_messages, at + count);
    assert(r =~= head + n + held + (at + count));
    lemma_take_int(head + n + held, f.suspended_at, 8, count);
    assert(r =~= head + n + held + at + count);
    lemma_take_int(head + n + held + at, f.resume_count, 4, empty);
    assert(r =~= head + n + held + at + count + empty);
}

/// `bincode::serialize` of six byte strings, a list of byte strings, a 64-bit and a
/// 32-bit integer. A tuple has no framing of its own.
#[verifier::external_body]
pub(crate) fn encode_session(
    head: (&[u8], &[u8], &[u8], &[u8], &[u8], &[u8]),
    held: &Vec<Vec<u8>>,
    at: u64,
    count: u32,
) -> (out: Vec<u8>)
    ensures
        out@ == session_record(
            SessionFields {
                session_id: head.0@,
                remote_rns: head.1@,
                local_rns: head.2@,
                remote_identity_key: head.3@,
                remote_encryption_key: head.4@,
                derived_key_bytes: head.5@,
                held_messages: wire::all_bytes(held@),
                suspended_at: at as nat,
                resume_count: count as nat,
            },
        ),
{
    bincode::serialize(&(head, held, at, count)).expect("plain values serialize")
}

/// What was read: six byte strings, a list of byte strings and two integers.
pub struct SessionParts {
    pub head: (Vec<u8>, Vec<u8>, Vec<u8>, Vec<u8>, Vec<u8>, Vec<u8>),
    pub held: Vec<Vec<u8>>,
    pub at: u64,
    pub count: u32,
}

/// The fields that were read, over byte sequences.
pub open spec fn session_view(r: Result<SessionParts, String>) -> Option<SessionFields> {
    match r {
        Ok(p) => Some(
            SessionFields {
                session_id: p.head.0@,
                remote_rns: p.head.1@,
                local_rns: p.head.2@,
                remote_identity_key: p.head.3@,
                remote_encryption_key: p.head.4@,
                derived_key_bytes: p.head.5@,
                held_messages: wire::all_bytes(p.held@),
                suspended_at: p.at as nat,
                resume_count: p.count as nat,
            },
        ),
        Err(_) => None,
    }
}

/// What `bincode::deserialize` says of bytes that hold no such record.
pub uninterp spec fn session_complaint(bytes: Seq<u8>) -> Seq<char>;

/// `bincode::deserialize` of such a record: its fields where the bytes hold them, or
/// the crate's description of the error, which is named for machines with memory sizes of
/// 64 bits.
#[verifier::external_body]
pub(crate) fn decode_session(bytes: &[u8]) -> (r: Result<SessionParts, String>)
    ensures
        session_view(r) == session_fields(bytes@),
        wide() ==> (r matches Err(e) ==> e@ == session_complaint(bytes@)),
{
    bincode::deserialize(bytes)
        .map(|(head, held, at, count)| SessionParts { head, held, at, count })
        .map_err(|e| e.to_string())
}

// --- Announces of the routing layer ---

/// A text behind its length, followed by a 64-bit integer.
pub open spec fn scored(name: Seq<u8>, score: u64) -> Seq<u8> {
    counted(name) + wire::le(score as nat, 8)
}

/// Scored texts, one behind the other.
pub open spec fn scored_all(v: Seq<(Seq<u8>, u64)>) -> Seq<u8>
    decreases v.len(),
{
    if v.len() == 0 {
        Seq::empty()
    } else {
        scored_all(v.drop_last()) + scored(v.last().0, v.last().1)
    }
}

/// A record of a text and a list of scored texts.
pub open spec fn list_record(origin: Seq<u8>, peers: Seq<(Seq<u8>, u64)>) -> Seq<u8> {
    counted(origin) + wire::le(peers.len(), 8) + scored_all(peers)
}

/// The UTF-8 bytes of a hexadecimal text.
pub open spec fn hex_utf8(b: Seq<u8>) -> Seq<u8> {
    vstd::utf8::encode_utf8(text::hex_text(b))
}

/// Whether a text is the hexadecimal form of some bytes.
pub open spec fn hex_of(t: Seq<char>, b: Seq<u8>) -> bool {
    t == text::hex_text(b)
}

/// The UTF-8 bytes of each text, with its score.
pub open spec fn utf8_scores(v: Seq<(String, u64)>) -> Seq<(Seq<u8>, u64)> {
    Seq::new(v.len(), |i: int| (vstd::utf8::encode_utf8(v[i].0@), v[i].1))
}

/// The record of an announce: addresses are written in hexadecimal.
pub open spec fn announce_record(origin: Seq<u8>, peers: Seq<(Seq<u8>, u64)>) -> Seq<u8> {
    list_record(
        hex_utf8(origin),
        Seq::new(peers.len(), |i: int| (hex_utf8(peers[i].0), peers[i].1)),
    )
}

/// Hexadecimal texts make the record of an announce.
pub proof fn lemma_announce_record(
    origin_text: Seq<char>,
    origin: Seq<u8>,
    texts: Seq<(String, u64)>,
    peers: Seq<(Seq<u8>, u64)>,
)
    requires
        hex_of(origin_text, origin),
        texts.len() == peers.len(),
        forall|i: int|
            0 <= i < texts.len() ==> hex_of((#[trigger] texts[i]).0@, peers[i].0) && texts[i].1
                == peers[i].1,
    ensures
        list_record(vstd::utf8::encode_utf8(origin_text), utf8_scores(texts)) == announce_record(
            origin,
            peers,
        ),
{
    assert(utf8_scores(texts) =~= Seq::new(
        peers.len(),
        |i: int| (hex_utf8(peers[i].0), peers[i].1),
    ));
}

/// `bincode::serialize` of a text and a list of texts, each with the bit pattern of a
/// number.
#[verifier::external_body]
pub(crate) fn encode_announce(origin: &String, peers: &Vec<(String, u64)>) -> (out: Vec<u8>)
    ensures
        out@ == list_record(vstd::utf8::encode_utf8(origin@), utf8_scores(peers@)),
{
    bincode::serialize(&(origin, peers)).expect("plain values serialize")
}

} // verus!
