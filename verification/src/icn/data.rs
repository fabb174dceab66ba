//! Data: named content with its producer's proof.
//!
//! ```text
//! Data:     [name_len:varint][name][content_len:4][content]
//!           [metadata_len:varint][metadata][proof:96]
//! Metadata: [flags:1][content_hash?:32][sequence?:8][staleness_secs?:8]
//! ```

use crate::crypto::primitives;
use crate::icn::interest;
use crate::icn::interest::InterestError;
use crate::icn::name;
use crate::icn::name::{Name, NameView};
use crate::icn::varint;
use crate::span::TimeSpan;
use crate::transport::proofs;
use crate::transport::Proof;
use crate::wire;
use vstd::prelude::*;

verus! {

/// What keeps Data from being read.
#[derive(Debug, Clone, Copy, PartialEq, Eq)]
pub enum DataError {
    BufferTooShort,
    InvalidName,
    InvalidSignature,
}

impl DataError {
    /// The text of the error.
    pub open spec fn message(&self) -> Seq<char> {
        match *self {
            DataError::BufferTooShort => "buffer too short"@,
            DataError::InvalidName => "invalid name"@,
            DataError::InvalidSignature => "invalid signature bytes"@,
        }
    }

    /// The message that describes the error.
    pub fn to_string(&self) -> (out: String)
        ensures
            out@ == self.message(),
    {
        match self {
            DataError::BufferTooShort => "buffer too short".to_owned(),
            DataError::InvalidName => "invalid name".to_owned(),
            DataError::InvalidSignature => "invalid signature bytes".to_owned(),
        }
    }
}

/// Whether content comes from its producer or from a cache.
#[derive(Debug, Clone, Copy, PartialEq, Eq, Structural)]
pub enum Freshness {
    /// From the producer.
    Fresh,
    /// From a content store, this old.
    Stale { age: TimeSpan },
}

impl Default for Freshness {
    /// From the producer.
    fn default() -> (f: Self)
        ensures
            f == Freshness::Fresh,
    {
        Freshness::Fresh
    }
}

/// What is known of some content.
#[derive(Debug, Clone, Copy, PartialEq, Eq)]
pub struct DataMetadata {
    /// BLAKE3 digest of the content.
    pub content_hash: Option<[u8; 32]>,
    /// Sequence number of content that changes.
    pub sequence: Option<u64>,
    pub freshness: Freshness,
}

/// Metadata over byte sequences.
pub struct MetadataView {
    pub content_hash: Option<Seq<u8>>,
    pub sequence: Option<u64>,
    pub freshness: Freshness,
}

impl View for DataMetadata {
    type V = MetadataView;

    open spec fn view(&self) -> MetadataView {
        MetadataView {
            content_hash: wire::key_view(self.content_hash),
            sequence: self.sequence,
            freshness: self.freshness,
        }
    }
}

/// The whole seconds of a staleness.
pub open spec fn stale_secs(f: Freshness) -> Option<u64> {
    match f {
        Freshness::Fresh => None,
        Freshness::Stale { age } => Some(age.secs),
    }
}

/// The freshness that a number of seconds stands for.
pub open spec fn freshness_of(secs: Option<u64>) -> Freshness {
    match secs {
        Some(s) => Freshness::Stale { age: TimeSpan { secs: s, nanos: 0 } },
        None => Freshness::Fresh,
    }
}

/// Metadata on the wire.
pub open spec fn metadata_bytes(m: MetadataView) -> Seq<u8> {
    seq![
        (interest::flag(m.content_hash is Some, 1) + interest::flag(m.sequence is Some, 2)
            + interest::flag(m.freshness is Stale, 4)) as u8,
    ] + interest::optional_bytes(m.content_hash) + interest::number_bytes(m.sequence)
        + interest::number_bytes(stale_secs(m.freshness))
}

/// The metadata that a byte string starts with.
pub open spec fn parsed_metadata(b: Seq<u8>) -> Option<MetadataView> {
    if b.len() == 0 {
        None
    } else {
        match interest::digest_at(b, 1, interest::has_flag(b[0], 1)) {
            Some((content_hash, p1)) => match interest::number_at(
                b,
                p1,
                interest::has_flag(b[0], 2),
            ) {
                Some((sequence, p2)) => match interest::number_at(
                    b,
                    p2,
                    interest::has_flag(b[0], 4),
                ) {
                    Some((secs, _)) => Some(
                        MetadataView { content_hash, sequence, freshness: freshness_of(secs) },
                    ),
                    None => None,
                },
                None => None,
            },
            None => None,
        }
    }
}

/// Whether metadata can be written without loss: a hash has 32 bytes, and an age is a
/// whole number of seconds.
pub open spec fn metadata_fits(m: MetadataView) -> bool {
    &&& (m.content_hash matches Some(h) ==> h.len() == 32)
    &&& m.freshness == freshness_of(stale_secs(m.freshness))
}

/// Metadata is read back from its bytes.
pub proof fn law_metadata_roundtrip(m: MetadataView)
    requires
        metadata_fits(m),
    ensures
        parsed_metadata(metadata_bytes(m)) == Some(m),
        metadata_bytes(m).len() <= 49,
{
    let b = metadata_bytes(m);
    let head = seq![b[0]];
    let h = interest::optional_bytes(m.content_hash);
    let q = interest::number_bytes(m.sequence);
    let secs = stale_secs(m.freshness);
    let t = interest::number_bytes(secs);
    interest::lemma_digest(head, m.content_hash, q + t);
    assert(b =~= head + h + (q + t));
    interest::lemma_number(head + h, m.sequence, t);
    assert(b =~= (head + h) + q + t);
    interest::lemma_number(head + h + q, secs, Seq::empty());
    assert(b =~= (head + h + q) + t + Seq::empty());
    wire::lemma_pow256_values();
    if let Some(x) = m.sequence {
        wire::lemma_be_roundtrip(x as nat, 8);
    }
    if let Some(x) = secs {
        wire::lemma_be_roundtrip(x as nat, 8);
    }
}

impl DataMetadata {
    /// The metadata on the wire.
    pub fn to_bytes(&self) -> (buf: Vec<u8>)
        ensures
            buf@ == metadata_bytes(self@),
    {
        let stale: Option<u64> = match self.freshness {
            Freshness::Fresh => None,
            Freshness::Stale { age } => Some(age.as_secs()),
        };
        let mut flags: u8 = 0;
        if self.content_hash.is_some() {
            flags = flags + 1;
        }
        if self.sequence.is_some() {
            flags = flags + 2;
        }
        if stale.is_some() {
            flags = flags + 4;
        }
        let mut buf: Vec<u8> = Vec::new();
        buf.push(flags);
        match &self.content_hash {
            Some(hash) => wire::push_all(&mut buf, hash.as_slice()),
            None => {},
        }
        interest::write_number(&mut buf, self.sequence);
        interest::write_number(&mut buf, stale);
        assert(buf@ =~= metadata_bytes(self@));
        buf
    }

    /// Reads metadata. What follows it is ignored.
    pub fn from_bytes(bytes: &[u8]) -> (r: Result<Self, DataError>)
        ensures
            (match r {
                Ok(m) => parsed_metadata(bytes@) == Some(m@),
                Err(e) => parsed_metadata(bytes@) is None && e == DataError::BufferTooShort,
            }),
    {
        if bytes.len() == 0 {
            return Err(DataError::BufferTooShort);
        }
        let flags: u8 = bytes[0];
        let (content_hash, p1): (Option<[u8; 32]>, usize) = match interest::read_digest(
            bytes,
            1,
            flags % 2 == 1,
        ) {
            Some(f) => f,
            None => {
                return Err(DataError::BufferTooShort);
            },
        };
        let (sequence, p2): (Option<u64>, usize) = match interest::read_number(
            bytes,
            p1,
            (flags / 2) % 2 == 1,
        ) {
            Some(f) => f,
            None => {
                return Err(DataError::BufferTooShort);
            },
        };
        match interest::read_number(bytes, p2, (flags / 4) % 2 == 1) {
            Some((secs, _)) => {
                let freshness: Freshness = match secs {
                    Some(s) => Freshness::Stale { age: TimeSpan::from_secs(s) },
                    None => Freshness::Fresh,
                };
                Ok(DataMetadata { content_hash, sequence, freshness })
            },
            None => Err(DataError::BufferTooShort),
        }
    }
}

/// Data over byte sequences.
pub struct DataView {
    pub name: NameView,
    pub content: Seq<u8>,
    pub signature: Proof,
    pub metadata: MetadataView,
}

/// Named content, its producer's proof, and what is known of it.
#[derive(Debug, Clone, PartialEq, Eq)]
pub struct Data {
    pub name: Name,
    pub content: Vec<u8>,
    /// The producer's proof of name and content.
    pub signature: Proof,
    pub metadata: DataMetadata,
}

impl View for Data {
    type V = DataView;

    open spec fn view(&self) -> DataView {
        DataView {
            name: self.name@,
            content: self.content@,
            signature: self.signature,
            metadata: self.metadata@,
        }
    }
}

/// What the producer's proof is about: the BLAKE3 digest of name and content.
pub open spec fn signed_digest(n: NameView, content: Seq<u8>) -> Seq<u8> {
    primitives::blake3_digest(name::name_bytes(n) + content)
}

/// Data on the wire.
pub open spec fn data_bytes(d: DataView) -> Seq<u8> {
    interest::name_field(d.name) + wire::be(d.content.len() % 0x1_0000_0000, 4) + d.content
        + varint::varint(metadata_bytes(d.metadata).len()) + metadata_bytes(d.metadata)
        + d.signature.bytes()
}

/// The content at `pos`, behind its length, and where it ends.
pub open spec fn content_at(b: Seq<u8>, pos: int) -> Option<(Seq<u8>, int)> {
    if pos + 4 > b.len() {
        None
    } else {
        let end = pos + 4 + wire::be_value(b.subrange(pos, pos + 4));
        if end > b.len() {
            None
        } else {
            Some((b.subrange(pos + 4, end), end))
        }
    }
}

/// The metadata at `pos`, behind its length, and where it ends.
pub open spec fn metadata_at(b: Seq<u8>, pos: int) -> Option<(MetadataView, int)> {
    let rest = b.subrange(pos, b.len() as int);
    match varint::varint_from(rest, 0) {
        Some((len, start)) => if start + len > rest.len() {
            None
        } else {
            match parsed_metadata(rest.subrange(start, start + len)) {
                Some(m) => Some((m, pos + start + len)),
                None => None,
            }
        },
        None => None,
    }
}

/// Whether `d` is the Data that a byte string starts with.
pub open spec fn holds_data(b: Seq<u8>, d: DataView) -> bool {
    match interest::name_field_at(b) {
        Ok((n, p1)) => match content_at(b, p1) {
            Some((content, p2)) => match metadata_at(b, p2) {
                Some((metadata, p3)) => p3 + 96 <= b.len() && d.name == n && d.content == content
                    && d.metadata == metadata && d.signature.bytes() == b.subrange(p3, p3 + 96),
                None => false,
            },
            None => false,
        },
        Err(_) => false,
    }
}

/// What keeps a byte string from being read as Data, if anything.
pub open spec fn data_fault(b: Seq<u8>) -> Option<DataError> {
    match interest::name_field_at(b) {
        Ok((_, p1)) => match content_at(b, p1) {
            Some((_, p2)) => match metadata_at(b, p2) {
                Some((_, p3)) => if p3 + 96 <= b.len() {
                    None
                } else {
                    Some(DataError::BufferTooShort)
                },
                None => Some(DataError::BufferTooShort),
            },
            None => Some(DataError::BufferTooShort),
        },
        Err(InterestError::BufferTooShort) => Some(DataError::BufferTooShort),
        Err(InterestError::InvalidName) => Some(DataError::InvalidName),
    }
}

/// Whether Data can be written without loss: its name and metadata can, and the content
/// is shorter than 2^32 bytes.
pub open spec fn data_fits(d: DataView) -> bool {
    &&& name::fits(d.name)
    &&& d.content.len() < 0x1_0000_0000
    &&& metadata_fits(d.metadata)
}

/// Data is read back from its bytes, and nothing else is.
pub proof fn law_data_roundtrip(d: DataView)
    requires
        data_fits(d),
    ensures
        data_fault(data_bytes(d)) is None,
        holds_data(data_bytes(d), d),
        forall|other: DataView|
            #[trigger] holds_data(data_bytes(d), other) ==> other.name == d.name && other.content
                == d.content && other.metadata == d.metadata && other.signature.bytes()
                == d.signature.bytes(),
{
    let b = data_bytes(d);
    let nf = interest::name_field(d.name);
    let len4 = wire::be(d.content.len(), 4);
    let mb = metadata_bytes(d.metadata);
    let ml = varint::varint(mb.len());
    let sig = d.signature.bytes();
    proofs::law_proof_roundtrip(d.signature);
    wire::lemma_pow256_values();
    wire::lemma_be_roundtrip(d.content.len(), 4);
    interest::lemma_name_field(d.name, len4 + d.content + ml + mb + sig);
    assert(b =~= nf + (len4 + d.content + ml + mb + sig));
    let p1 = nf.len() as int;
    assert(b.subrange(p1, p1 + 4) =~= len4);
    let p2 = p1 + 4 + d.content.len();
    assert(b.subrange(p1 + 4, p2) =~= d.content);
    law_metadata_roundtrip(d.metadata);
    let rest = b.subrange(p2, b.len() as int);
    assert(rest =~= ml + (mb + sig));
    varint::law_varint_roundtrip(mb.len() as u64, mb + sig);
    let start = ml.len() as int;
    assert(rest.subrange(start, start + mb.len()) =~= mb);
    let p3 = p2 + start + mb.len();
    assert(b.subrange(p3, p3 + 96) =~= sig);
}

impl Data {
    /// Content under a name, fresh from its producer.
    pub fn new(name: Name, content: Vec<u8>, signature: Proof) -> (d: Self)
        ensures
            d.name == name,
            d.content == content,
            d.signature == signature,
            wire::key_view(d.metadata.content_hash) == Some(primitives::blake3_digest(content@)),
            d.metadata.sequence is None,
            d.metadata.freshness == Freshness::Fresh,
    {
        let digest: [u8; 32] = primitives::blake3_hash(content.as_slice());
        Data {
            name,
            content,
            signature,
            metadata: DataMetadata {
                content_hash: Some(digest),
                sequence: None,
                freshness: Freshness::Fresh,
            },
        }
    }

    /// Sets the sequence number.
    pub fn with_sequence(self, seq: u64) -> (d: Self)
        ensures
            d == (Data { metadata: DataMetadata { sequence: Some(seq), ..self.metadata }, ..self }),
    {
        let mut d = self;
        d.metadata.sequence = Some(seq);
        d
    }

    /// Marks the content as served from a cache.
    pub fn with_staleness(self, age: TimeSpan) -> (d: Self)
        ensures
            d == (Data {
                metadata: DataMetadata { freshness: Freshness::Stale { age }, ..self.metadata },
                ..self
            }),
    {
        let mut d = self;
        d.metadata.freshness = Freshness::Stale { age };
        d
    }

    /// The digest that the proof is about.
    pub fn signed_hash(&self) -> (h: [u8; 32])
        ensures
            h@ == signed_digest(self.name@, self.content@),
    {
        let mut buf: Vec<u8> = self.name.to_bytes();
        wire::push_all(&mut buf, self.content.as_slice());
        primitives::blake3_hash(buf.as_slice())
    }

    /// The Data on the wire.
    pub fn to_bytes(&self) -> (buf: Vec<u8>)
        ensures
            buf@ == data_bytes(self@),
    {
        let metadata: Vec<u8> = self.metadata.to_bytes();
        let signature: Vec<u8> = self.signature.to_bytes();
        let mut buf: Vec<u8> = Vec::new();
        interest::write_name(&mut buf, &self.name);
        wire::push_be(&mut buf, self.content.len() as u64 % 0x1_0000_0000, 4);
        wire::push_all(&mut buf, self.content.as_slice());
        varint::write_varint(&mut buf, metadata.len() as u64);
        wire::push_all(&mut buf, metadata.as_slice());
        wire::push_all(&mut buf, signature.as_slice());
        assert(buf@ =~= data_bytes(self@));
        buf
    }

    /// Reads Data. What follows it is ignored.
    pub fn from_bytes(bytes: &[u8]) -> (r: Result<Self, DataError>)
        ensures
            (match r {
                Ok(d) => data_fault(bytes@) is None && holds_data(bytes@, d@),
                Err(e) => data_fault(bytes@) == Some(e),
            }),
    {
        let (name, p1): (Name, usize) = match interest::read_name(bytes) {
            Ok(f) => f,
            Err(InterestError::BufferTooShort) => {
                return Err(DataError::BufferTooShort);
            },
            Err(InterestError::InvalidName) => {
                return Err(DataError::InvalidName);
            },
        };
        if 4 > bytes.len() - p1 {
            return Err(DataError::BufferTooShort);
        }
        let content_len: u64 = wire::read_be(bytes, p1, 4);
        if content_len > (bytes.len() - p1 - 4) as u64 {
            return Err(DataError::BufferTooShort);
        }
        let p2: usize = p1 + 4 + content_len as usize;
        let content: Vec<u8> = wire::copy_range(bytes, p1 + 4, p2);
        let rest: Vec<u8> = wire::copy_range(bytes, p2, bytes.len());
        let (len, start): (u64, usize) = match varint::read_varint(rest.as_slice()) {
            Some(f) => f,
            None => {
                return Err(DataError::BufferTooShort);
            },
        };
        if len > (rest.len() - start) as u64 {
            return Err(DataError::BufferTooShort);
        }
        let end: usize = start + len as usize;
        let part: Vec<u8> = wire::copy_range(rest.as_slice(), start, end);
        let metadata: DataMetadata = match DataMetadata::from_bytes(part.as_slice()) {
            Ok(m) => m,
            Err(e) => {
                return Err(e);
            },
        };
        if 96 > rest.len() - end {
            return Err(DataError::BufferTooShort);
        }
        let sig: Vec<u8> = wire::copy_range(rest.as_slice(), end, end + 96);
        assert(sig@ =~= bytes@.subrange(p2 + end, p2 + end + 96));
        match Proof::from_bytes(sig.as_slice()) {
            Ok(signature) => Ok(Data { name, content, signature, metadata }),
            Err(_) => Err(DataError::InvalidSignature),
        }
    }

    /// A copy of the Data.
    pub fn duplicate(&self) -> (d: Self)
        ensures
            d@ == self@,
    {
        Data {
            name: self.name.duplicate(),
            content: wire::copy_all(self.content.as_slice()),
            signature: self.signature,
            metadata: self.metadata,
        }
    }
}

/// Data on the wire is its name with the length in front, its content with the length in
/// four bytes in front, its metadata with the length in front, and its proof.
pub proof fn law_data_layout(d: DataView)
    requires
        d.content.len() < 0x1_0000_0000,
    ensures
        ({
            let b = data_bytes(d);
            let at = interest::name_field(d.name).len() as int;
            let n = d.content.len() as int;
            &&& b.subrange(0, at) == varint::varint(name::name_bytes(d.name).len())
                + name::name_bytes(d.name)
            &&& wire::be_value(b.subrange(at, at + 4)) == n
            &&& b.subrange(at + 4, at + 4 + n) == d.content
            &&& b.len() >= at + 4 + n + 96
            &&& b.subrange(b.len() - 96, b.len() - 64) == d.signature.packet_hash@
            &&& b.subrange(b.len() - 64, b.len() as int) == d.signature.signature@
        }),
{
    let b = data_bytes(d);
    let at = interest::name_field(d.name).len() as int;
    let n = d.content.len() as int;
    wire::lemma_pow256_values();
    wire::lemma_be_roundtrip(d.content.len(), 4);
    assert(d.signature.bytes().len() == 96);
    assert(b.subrange(0, at) =~= interest::name_field(d.name));
    assert(b.subrange(at, at + 4) =~= wire::be(d.content.len(), 4));
    assert(b.subrange(at + 4, at + 4 + n) =~= d.content);
    assert(b.subrange(b.len() - 96, b.len() - 64) =~= d.signature.packet_hash@);
    assert(b.subrange(b.len() - 64, b.len() as int) =~= d.signature.signature@);
}

/// Metadata on the wire is a byte of flags, and then the hash, the sequence number and the
/// age in seconds, as far as there are any.
pub proof fn law_metadata_layout(m: MetadataView)
    requires
        metadata_fits(m),
    ensures
        ({
            let b = metadata_bytes(m);
            let at = if m.content_hash is Some {
                33int
            } else {
                1int
            };
            let next = at + (if m.sequence is Some {
                8int
            } else {
                0
            });
            &&& b[0] == (if m.content_hash is Some {
                1int
            } else {
                0
            }) + (if m.sequence is Some {
                2int
            } else {
                0
            }) + (if m.freshness is Stale {
                4int
            } else {
                0
            })
            &&& (m.content_hash matches Some(h) ==> b.subrange(1, 33) == h)
            &&& (m.sequence matches Some(n) ==> wire::be_value(b.subrange(at, at + 8)) == n)
            &&& (m.freshness matches Freshness::Stale { age } ==> wire::be_value(
                b.subrange(next, next + 8),
            ) == age.secs)
        }),
{
    let b = metadata_bytes(m);
    let at = if m.content_hash is Some {
        33int
    } else {
        1int
    };
    let next = at + (if m.sequence is Some {
        8int
    } else {
        0
    });
    wire::lemma_pow256_values();
    if let Some(h) = m.content_hash {
        assert(b.subrange(1, 33) =~= h);
    }
    if let Some(n) = m.sequence {
        wire::lemma_be_roundtrip(n as nat, 8);
        assert(b.subrange(at, at + 8) =~= wire::be(n as nat, 8));
    }
    if let Freshness::Stale { age } = m.freshness {
        wire::lemma_be_roundtrip(age.secs as nat, 8);
        assert(b.subrange(next, next + 8) =~= wire::be(age.secs as nat, 8));
    }
}

/// Data is read back from its bytes.
pub proof fn law_written_is_read(d: &Data, b: Vec<u8>, bytes: &[u8], r: Result<Data, DataError>)
    requires
        data_fits(d@),
        call_ensures(Data::to_bytes, (d,), b),
        bytes@ == b@,
        call_ensures(Data::from_bytes, (bytes,), r),
    ensures
        r matches Ok(x) && x@.name == d@.name && x@.content == d@.content && x@.metadata
            == d@.metadata && x@.signature.packet_hash@ == d@.signature.packet_hash@
            && x@.signature.signature@ == d@.signature.signature@,
{
    law_data_roundtrip(d@);
    if let Ok(x) = r {
        assert(holds_data(data_bytes(d@), x@));
        let p = x@.signature;
        let q = d@.signature;
        assert(p.bytes().subrange(0, 32) =~= p.packet_hash@);
        assert(q.bytes().subrange(0, 32) =~= q.packet_hash@);
        assert(p.bytes().subrange(32, 96) =~= p.signature@);
        assert(q.bytes().subrange(32, 96) =~= q.signature@);
    }
}

/// New Data carries its name, its content and its proof, and the hash of its content; it has
/// no sequence number and is fresh. Each setting changes what it is about, and nothing else.
pub proof fn law_building_data(
    name: Name,
    content: Vec<u8>,
    signature: Proof,
    d: Data,
    seq: u64,
    numbered: Data,
    age: TimeSpan,
    stale: Data,
    h: [u8; 32],
)
    requires
        call_ensures(Data::new, (name, content, signature), d),
        call_ensures(Data::with_sequence, (d, seq), numbered),
        call_ensures(Data::with_staleness, (d, age), stale),
        call_ensures(Data::signed_hash, (&d,), h),
    ensures
        d@.name == name@ && d@.content == content@ && d@.signature == signature,
        d@.metadata.content_hash == Some(primitives::blake3_digest(content@)),
        d@.metadata.sequence is None && d@.metadata.freshness is Fresh,
        numbered@.metadata.sequence == Some(seq) && numbered@.content == content@
            && numbered@.metadata.content_hash == d@.metadata.content_hash
            && numbered@.metadata.freshness is Fresh,
        stale@.metadata.freshness == (Freshness::Stale { age }) && stale@.metadata.sequence is None
            && stale@.content == content@,
        h@ == primitives::blake3_digest(name::name_bytes(name@) + content@),
{
}

} // verus!
