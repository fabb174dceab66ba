//! A small pipeline: a producer offers content in a manifest and serves it, and a
//! consumer checks what it fetched.

use crate::crypto::primitives;
use crate::icn::cs;
use crate::icn::data;
use crate::icn::data::Data;
use crate::icn::forwarder::{data_view, Forwarder};
use crate::icn::interest::Interest;
use crate::icn::manifest::{EntryKind, Manifest, ManifestEntry};
use crate::icn::name::Name;
use crate::icn::strategy::BestRoute;
use crate::identity::Keys;
use crate::transport::proofs;
use crate::transport::Proof;
use crate::wire;
use vstd::prelude::*;
use vstd::utf8;

verus! {

/// The first manifest of a producer, which offers one piece of content under its label.
pub fn first_manifest(producer: [u8; 32], label: &str, timestamp: u64) -> (m: Manifest)
    ensures
        m.producer == producer,
        m.sequence == 1,
        m.timestamp == timestamp,
        m.previous is None,
        m.entries@.len() == 1,
        m.entries@[0].kind == EntryKind::Blob,
        m.entries@[0].label@ == label@,
        m.entries@[0].content_name@.0 == seq![producer@, utf8::encode_utf8(label@)],
        m.entries@[0].content_name@.1 is None,
        m.entries@[0].content_hash is None,
        m.entries@[0].size is None,
{
    let path: [&[u8]; 1] = [label.as_bytes()];
    let content_name: Name = Name::new(producer, path.as_slice());
    assert(content_name@.0 =~= seq![producer@, utf8::encode_utf8(label@)]);
    let mut entries: Vec<ManifestEntry> = Vec::new();
    entries.push(
        ManifestEntry {
            kind: EntryKind::Blob,
            label: label.to_owned(),
            content_name,
            content_hash: None,
            size: None,
        },
    );
    Manifest { producer, sequence: 1, timestamp, entries, previous: None }
}

/// Content under a name, with the proof of its producer and its hash.
pub fn signed_content(name: Name, content: Vec<u8>, keys: &Keys) -> (d: Data)
    ensures
        d.name == name,
        d.content == content,
        d.signature.packet_hash@ == primitives::sha256_digest(
            data::signed_digest(name@, content@),
        ),
        d.signature.signature@ == primitives::ed25519_signature(
            keys.signing@,
            data::signed_digest(name@, content@),
        ),
        proofs::proves(
            keys.identity(),
            data::signed_digest(name@, content@),
            d.signature.packet_hash@,
            d.signature.signature@,
        ),
        wire::key_view(d.metadata.content_hash) == Some(primitives::blake3_digest(content@)),
        d.metadata.sequence is None,
        d.metadata.freshness is Fresh,
{
    let unsigned: Proof = Proof { packet_hash: [0u8; 32], signature: [0u8; 64] };
    let mut d: Data = Data::new(name, content, unsigned);
    let digest: [u8; 32] = d.signed_hash();
    d.signature = proofs::generate_proof(keys, digest.as_slice());
    d
}

/// The answer of a producer to an Interest: what its content store has of that name.
pub fn serve(fw: &mut Forwarder<BestRoute>, interest: &Interest) -> (answer: Option<Data>)
    requires
        old(fw).wf(),
    ensures
        final(fw).wf(),
        data_view(answer) == (match cs::found(old(fw).cs.contents(), interest.name@) {
            Some(c) => Some(c.data@),
            None => None,
        }),
        final(fw).cs.contents() == cs::used(old(fw).cs.contents(), interest.name@),
        final(fw).cs.room() == old(fw).cs.room(),
        final(fw).cs.hits == (if answer is Some {
            old(fw).cs.hits.wrapping_add(1)
        } else {
            old(fw).cs.hits
        }),
        final(fw).cs.misses == (if answer is Some {
            old(fw).cs.misses
        } else {
            old(fw).cs.misses.wrapping_add(1)
        }),
        *final(fw) == (Forwarder { cs: final(fw).cs, ..*old(fw) }),
{
    match fw.cs.get(&interest.name) {
        Some(d) => Some(d.duplicate()),
        None => None,
    }
}

/// Whether content has the hash that its metadata gives, where there is one.
pub fn hash_verified(d: &Data) -> (r: Option<bool>)
    ensures
        r == (match d@.metadata.content_hash {
            Some(h) => Some(h == primitives::blake3_digest(d.content@)),
            None => None,
        }),
{
    match &d.metadata.content_hash {
        Some(expected) => {
            let actual: [u8; 32] = primitives::blake3_hash(d.content.as_slice());
            Some(wire::same_bytes(expected.as_slice(), actual.as_slice()))
        },
        None => None,
    }
}

/// Content that a producer signs is accepted by everyone who knows the producer's keys under
/// the name's producer, and its hash is found right.
pub proof fn law_signed_content_is_accepted(
    name: Name,
    content: Vec<u8>,
    keys: &Keys,
    d: Data,
    known: Map<Seq<u8>, Keys>,
    r: Option<bool>,
)
    requires
        call_ensures(signed_content, (name, content, keys), d),
        known.dom().contains(crate::icn::forwarder::producer(name@)),
        known[crate::icn::forwarder::producer(name@)].identity() == keys.identity(),
        call_ensures(hash_verified, (&d,), r),
    ensures
        crate::icn::forwarder::complaint(known, d@) is None,
        d@.name == name@,
        d@.content == content@,
        r == Some(true),
{
}

/// A hash that is not that of the content is found wrong.
pub proof fn law_wrong_hash_is_found(d: &Data, r: Option<bool>)
    requires
        call_ensures(hash_verified, (d,), r),
    ensures
        d@.metadata.content_hash is None ==> r is None,
        d@.metadata.content_hash matches Some(h) ==> (r == Some(true) <==> h
            == primitives::blake3_digest(d@.content)) && r is Some,
{
}

/// A producer serves exactly what its content store has under the very name asked for.
pub proof fn law_stored_is_served(
    fw: &mut Forwarder<BestRoute>,
    interest: &Interest,
    answer: Option<Data>,
)
    requires
        old(fw).wf(),
        call_ensures(serve, (fw, interest), answer),
    ensures
        answer matches Some(d) ==> (cs::found(old(fw).cs.contents(), interest@.name) matches Some(c)
            && c.data@ == d@),
        answer is None ==> cs::found(old(fw).cs.contents(), interest@.name) is None,
        final(fw).fib == old(fw).fib && final(fw).pit == old(fw).pit,
{
}

} // verus!
