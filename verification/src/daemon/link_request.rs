//! Link requests and the responses to them.
//!
//! ```text
//! Request:  [ephemeral X25519 key:32][Ed25519 key:32][signalling:6]
//! Response: [signature:64][ephemeral X25519 key:32][signalling:6]
//! ```
//!
//! The signature is about the link id, both keys of the responder and the signalling.

use crate::crypto::primitives;
use crate::identity::{Keys, RnsAddress};
use crate::packet;
use crate::packet::{Packet, PacketModel};
use crate::wire;
use vstd::prelude::*;

verus! {

/// Size of the key material in a link request.
pub const LINK_REQUEST_KEYS_LEN: usize = 64;

/// The identifier of the link that a request asks for: the first half of the digest of
/// the packet without its first two bytes, and without what follows the keys.
pub open spec fn link_id_of(p: PacketModel) -> Seq<u8> {
    let raw = packet::packet_bytes(p);
    let extra = if p.data.len() > LINK_REQUEST_KEYS_LEN {
        p.data.len() - LINK_REQUEST_KEYS_LEN
    } else {
        0
    };
    primitives::sha256_digest(raw.subrange(2, raw.len() - extra)).subrange(0, 16)
}

/// The identifier of the link does not depend on the signalling, nor on the hops that
/// the request took.
pub proof fn law_link_id_ignores_signalling(p: PacketModel, q: PacketModel)
    requires
        p.data.len() >= LINK_REQUEST_KEYS_LEN,
        q.data.len() >= LINK_REQUEST_KEYS_LEN,
        p.data.subrange(0, 64) == q.data.subrange(0, 64),
        p.header_type == q.header_type,
        p.destination_hash == q.destination_hash,
        p.transport_id == q.transport_id,
        p.context == q.context,
    ensures
        link_id_of(p) == link_id_of(q),
{
    let a = packet::packet_bytes(p);
    let b = packet::packet_bytes(q);
    let x = a.subrange(2, a.len() - (p.data.len() - 64));
    let y = b.subrange(2, b.len() - (q.data.len() - 64));
    assert(x =~= y) by {
        assert forall|i: int| 0 <= i < x.len() implies x[i] == y[i] by {
            let start = a.len() - p.data.len() - 2;
            if i >= start {
                assert(x[i] == p.data.subrange(0, 64)[i - start]);
                assert(y[i] == q.data.subrange(0, 64)[i - start]);
            }
        }
    }
}

/// The identifier of the link that a request asks for.
pub fn compute_link_id_from_request(p: &Packet) -> (id: [u8; 16])
    ensures
        id@ == link_id_of(p@),
{
    let raw: Vec<u8> = p.to_bytes();
    let extra: usize = p.data.len().saturating_sub(LINK_REQUEST_KEYS_LEN);
    let part: Vec<u8> = wire::copy_range(raw.as_slice(), 2, raw.len() - extra);
    let digest: [u8; 32] = primitives::sha256(part.as_slice());
    wire::read_16(digest.as_slice(), 0)
}

/// The signalling of a request: six zeros where there is none.
pub open spec fn signalling_of(data: Seq<u8>) -> Seq<u8> {
    if data.len() >= 70 {
        data.subrange(64, 70)
    } else {
        Seq::new(6, |i: int| 0u8)
    }
}

/// The response to a request, given the responder's ephemeral public key.
pub open spec fn response(keys: Keys, from: Seq<u8>, p: PacketModel, public: Seq<u8>) -> PacketModel {
    let signalling = signalling_of(p.data);
    PacketModel {
        header_type: packet::HEADER_1,
        context_flag: packet::FLAG_SET,
        transport_type: packet::TRANSPORT_UNICAST,
        destination_type: packet::DEST_SINGLE,
        packet_type: packet::PROOF,
        hops: packet::MAX_HOPS,
        destination_hash: from,
        transport_id: None,
        context: packet::LRPROOF,
        data: primitives::ed25519_signature(
            keys.signing@,
            link_id_of(p) + public + keys.identity() + signalling,
        ) + public + signalling,
    }
}

/// Whether a public key accepts the signature at the head of a response, which is about
/// the link, the responder's two keys and the signalling.
pub open spec fn response_accepted(key: Seq<u8>, p: PacketModel, public: Seq<u8>, data: Seq<u8>) -> bool {
    &&& data.len() == 102
    &&& primitives::ed25519_accepts(
        key,
        link_id_of(p) + public + key + signalling_of(p.data),
        data.subrange(0, 64),
    )
}

/// Answers a request, given the responder's ephemeral public key. The responder's
/// identity key accepts the signature of the answer.
pub fn build_response(keys: &Keys, from: RnsAddress, p: &Packet, public: &[u8; 32]) -> (r: Packet)
    ensures
        r@ == response(*keys, from@, p@, public@),
        response_accepted(keys.identity(), p@, public@, r@.data),
{
    let link_id: [u8; 16] = compute_link_id_from_request(p);
    let mut signalling: Vec<u8> = Vec::new();
    if p.data.len() >= 70 {
        signalling = wire::copy_range(p.data.as_slice(), 64, 70);
    } else {
        let none: [u8; 6] = [0u8; 6];
        wire::push_all(&mut signalling, none.as_slice());
    }
    assert(signalling@ =~= signalling_of(p@.data));
    let identity: [u8; 32] = keys.identity_key_bytes();
    let mut signed: Vec<u8> = Vec::new();
    wire::push_all(&mut signed, link_id.as_slice());
    wire::push_all(&mut signed, public.as_slice());
    wire::push_all(&mut signed, identity.as_slice());
    wire::push_all(&mut signed, signalling.as_slice());
    let signature: [u8; 64] = keys.sign(signed.as_slice());
    let mut data: Vec<u8> = Vec::new();
    wire::push_all(&mut data, signature.as_slice());
    wire::push_all(&mut data, public.as_slice());
    wire::push_all(&mut data, signalling.as_slice());
    proof {
        assert(signed@ =~= link_id_of(p@) + public@ + keys.identity() + signalling@);
        assert(data@ =~= signature@ + public@ + signalling@);
        assert(data@.subrange(0, 64) =~= signature@);
    }
    Packet::new_proof(from, packet::LRPROOF, data)
}

/// The initiator can do its part from the response alone: behind 64 bytes of signature it
/// finds the responder's ephemeral key, and then the signalling of its request, or six
/// zeros where that had none; and the responder's identity key accepts the signature as
/// one of the link's identifier, the key found, the identity key and the signalling found.
pub proof fn law_response_serves_initiator(
    keys: Keys,
    from: Seq<u8>,
    p: PacketModel,
    public: Seq<u8>,
)
    requires
        public.len() == 32,
        response_accepted(keys.identity(), p, public, response(keys, from, p, public).data),
    ensures
        ({
            let data = response(keys, from, p, public).data;
            &&& data.len() == 102
            &&& data.subrange(64, 96) == public
            &&& (p.data.len() >= 70 ==> data.subrange(96, 102) == p.data.subrange(64, 70))
            &&& (p.data.len() < 70 ==> data.subrange(96, 102) == seq![0u8, 0, 0, 0, 0, 0])
            &&& primitives::ed25519_accepts(
                keys.identity(),
                link_id_of(p) + data.subrange(64, 96) + keys.identity() + data.subrange(96, 102),
                data.subrange(0, 64),
            )
        }),
{
    let data = response(keys, from, p, public).data;
    assert(data.subrange(64, 96) =~= public);
    assert(data.subrange(96, 102) =~= signalling_of(p.data));
    assert(Seq::new(6, |i: int| 0u8) =~= seq![0u8, 0, 0, 0, 0, 0]);
}

/// The response goes back to the sender of the request, directly, as a proof of the link
/// request.
pub proof fn law_response_goes_back(keys: Keys, from: Seq<u8>, p: PacketModel, public: Seq<u8>)
    ensures
        ({
            let q = response(keys, from, p, public);
            &&& q.destination_hash == from
            &&& q.transport_id is None
            &&& q.packet_type == packet::PROOF
            &&& q.context == packet::LRPROOF
        }),
{
}

/// The identifier of a link is half the digest of the request, from its third byte up to
/// the keys: so it is told by everything that is read from there.
pub proof fn law_link_id_is_digest(p: PacketModel, head: Seq<u8>, tail: Seq<u8>)
    requires
        p.data.len() >= 64,
        packet::packet_bytes(p) == head + tail + p.data,
        head.len() == 2,
    ensures
        link_id_of(p) == primitives::sha256_digest(tail + p.data.subrange(0, 64)).subrange(0, 16),
{
    let raw = packet::packet_bytes(p);
    assert(raw.subrange(2, raw.len() - (p.data.len() - 64)) =~= tail + p.data.subrange(0, 64));
}

/// The response that is built for a request can be checked from its own data: it holds the
/// given ephemeral key behind the signature, then the signalling, and the responder's
/// identity key accepts the signature as one of these.
pub proof fn law_built_response(
    keys: &Keys,
    from: RnsAddress,
    p: &Packet,
    public: &[u8; 32],
    r: Packet,
)
    requires
        call_ensures(build_response, (keys, from, p, public), r),
    ensures
        r.data@.len() == 102,
        r.data@.subrange(64, 96) == public@,
        p.data@.len() >= 70 ==> r.data@.subrange(96, 102) == p.data@.subrange(64, 70),
        p.data@.len() < 70 ==> r.data@.subrange(96, 102) == seq![0u8, 0, 0, 0, 0, 0],
        primitives::ed25519_accepts(
            keys.identity(),
            link_id_of(p@) + r.data@.subrange(64, 96) + keys.identity() + r.data@.subrange(96, 102),
            r.data@.subrange(0, 64),
        ),
        r.destination_hash@ == from@,
        r.packet_type == 3,
        r.context == 0xFF,
{
    assert(r@.data == r.data@);
    law_response_serves_initiator(*keys, from@, p@, public@);
}

} // verus!
