//! Announces of a daemon.
//!
//! ```text
//! [X25519 key:32][Ed25519 key:32][name hash:10][random hash:10][signature:64]
//! ```
//!
//! The signature is about the destination hash and everything in front of it. Shorter
//! announces carry the two keys, or the Ed25519 key alone.

use crate::clock;
use crate::crypto::primitives;
use crate::identity::rns_address;
use crate::identity::{Keys, RnsAddress};
use crate::packet;
use crate::packet::{Packet, PacketModel};
use crate::wire;
use vstd::prelude::*;
use vstd::utf8;

verus! {

/// Size of a full announce.
pub const FULL_ANNOUNCE_LEN: usize = 148;

/// The first ten bytes of the digest of the application name.
pub open spec fn name_hash() -> Seq<u8> {
    primitives::sha256_digest(utf8::encode_utf8("daemon"@)).subrange(0, 10)
}

/// Five random bytes, and the low-order five bytes of the time in Unix seconds.
pub open spec fn random_hash(random: Seq<u8>, now: u64) -> Seq<u8> {
    random + wire::le(now as nat, 5)
}

/// What the signature of an announce is about.
pub open spec fn signed_part(
    destination: Seq<u8>,
    public_key: Seq<u8>,
    name: Seq<u8>,
    random: Seq<u8>,
) -> Seq<u8> {
    destination + public_key + name + random
}

/// The announce of an identity.
pub open spec fn announce_packet(keys: Keys, random: Seq<u8>, now: u64) -> PacketModel {
    let addr = rns_address::rns_hash(keys.identity());
    let public_key = keys.exchange() + keys.identity();
    let rh = random_hash(random, now);
    PacketModel {
        header_type: packet::HEADER_1,
        context_flag: packet::FLAG_UNSET,
        transport_type: packet::TRANSPORT_BROADCAST,
        destination_type: packet::DEST_SINGLE,
        packet_type: packet::ANNOUNCE,
        hops: 1,
        destination_hash: addr,
        transport_id: None,
        context: packet::NONE,
        data: public_key + name_hash() + rh + primitives::ed25519_signature(
            keys.signing@,
            signed_part(addr, public_key, name_hash(), rh),
        ),
    }
}

/// Whether the key that a full announce carries accepts its signature, which is about
/// the destination in its header and all that stands before it.
pub open spec fn authentic(p: PacketModel) -> bool {
    &&& p.data.len() == FULL_ANNOUNCE_LEN
    &&& primitives::ed25519_accepts(
        p.data.subrange(32, 64),
        p.destination_hash + p.data.subrange(0, 84),
        p.data.subrange(84, 148),
    )
}

/// The announce of an identity, with given random bytes and time. The announced key
/// accepts its signature.
pub fn build_announce_packet_with(keys: &Keys, random: &[u8; 5], now: u64) -> (p: Packet)
    ensures
        p@ == announce_packet(*keys, random@, now),
        p@.data.len() == FULL_ANNOUNCE_LEN,
        authentic(p@),
{
    let addr: RnsAddress = keys.rns_address();
    let public_key: [u8; 64] = keys.full_public_key_bytes();
    let digest: [u8; 32] = primitives::sha256("daemon".as_bytes());
    let name: Vec<u8> = wire::copy_range(digest.as_slice(), 0, 10);
    let mut rh: Vec<u8> = Vec::new();
    wire::push_all(&mut rh, random.as_slice());
    wire::push_le(&mut rh, now, 5);
    proof {
        wire::lemma_le_len(now as nat, 5);
        assert(rh@ =~= random_hash(random@, now));
    }
    let mut signed: Vec<u8> = addr.to_vec();
    wire::push_all(&mut signed, public_key.as_slice());
    wire::push_all(&mut signed, name.as_slice());
    wire::push_all(&mut signed, rh.as_slice());
    let signature: [u8; 64] = keys.sign(signed.as_slice());
    let mut data: Vec<u8> = Vec::new();
    wire::push_all(&mut data, public_key.as_slice());
    wire::push_all(&mut data, name.as_slice());
    wire::push_all(&mut data, rh.as_slice());
    wire::push_all(&mut data, signature.as_slice());
    proof {
        assert(data@.subrange(32, 64) =~= keys.identity());
        assert(addr@ + data@.subrange(0, 84) =~= signed@);
        assert(data@.subrange(84, 148) =~= signature@);
    }
    Packet {
        header_type: packet::HEADER_1,
        context_flag: packet::FLAG_UNSET,
        transport_type: packet::TRANSPORT_BROADCAST,
        destination_type: packet::DEST_SINGLE,
        packet_type: packet::ANNOUNCE,
        hops: 1,
        destination_hash: *addr.as_bytes(),
        transport_id: None,
        context: packet::NONE,
        data,
    }
}

/// The announce of an identity, made now with fresh random bytes.
pub fn build_announce_packet(keys: &Keys) -> (p: Packet)
    ensures
        exists|random: Seq<u8>, now: u64|
            random.len() == 5 && p@ == #[trigger] announce_packet(*keys, random, now),
        p@.data.len() == FULL_ANNOUNCE_LEN,
        authentic(p@),
{
    let fresh: Vec<u8> = primitives::system_random(5);
    let random: [u8; 5] = [fresh[0], fresh[1], fresh[2], fresh[3], fresh[4]];
    let now: u64 = clock::unix_secs();
    build_announce_packet_with(keys, &random, now)
}

/// What an announce says of its sender.
#[derive(Debug, Clone, Copy, PartialEq, Eq)]
pub struct Announced {
    pub address: RnsAddress,
    /// The Ed25519 key.
    pub signing_key: [u8; 32],
    /// Whether the announce carries a signature of its sender.
    pub signed: bool,
}

/// What an announce says over byte sequences: the address and the Ed25519 key of its
/// sender, and whether it is signed. A full announce has its address from its own
/// keys; a shorter one from where it came.
pub open spec fn announced(from: Seq<u8>, data: Seq<u8>) -> Option<(Seq<u8>, Seq<u8>, bool)> {
    if data.len() >= FULL_ANNOUNCE_LEN {
        let public_key = data.subrange(0, 64);
        let addr = rns_address::rns_hash(public_key);
        let key = data.subrange(32, 64);
        Some(
            (
                addr,
                key,
                primitives::ed25519_accepts(
                    key,
                    signed_part(
                        addr,
                        public_key,
                        data.subrange(64, 74),
                        data.subrange(74, 84),
                    ),
                    data.subrange(84, 148),
                ),
            ),
        )
    } else if data.len() >= 64 {
        Some((from, data.subrange(32, 64), false))
    } else if data.len() >= 32 {
        Some((from, data.subrange(0, 32), false))
    } else {
        None
    }
}

/// What was read from an announce, over byte sequences.
pub open spec fn announced_view(a: Option<Announced>) -> Option<(Seq<u8>, Seq<u8>, bool)> {
    match a {
        Some(x) => Some((x.address@, x.signing_key@, x.signed)),
        None => None,
    }
}

/// Reads an announce.
pub fn read_announce(from: RnsAddress, data: &[u8]) -> (a: Option<Announced>)
    ensures
        announced_view(a) == announced(from@, data@),
        (data@.len() < FULL_ANNOUNCE_LEN && a is Some) ==> a->0.address == from,
{
    if data.len() >= FULL_ANNOUNCE_LEN {
        let public_key: [u8; 64] = wire::read_64(data, 0);
        let address: RnsAddress = RnsAddress::from_full_key(&public_key);
        let signing_key: [u8; 32] = wire::read_32(data, 32);
        let signature: [u8; 64] = wire::read_64(data, 84);
        let mut signed: Vec<u8> = address.to_vec();
        wire::push_all(&mut signed, public_key.as_slice());
        let hashes: Vec<u8> = wire::copy_range(data, 64, 84);
        wire::push_all(&mut signed, hashes.as_slice());
        proof {
            assert(signed@ =~= signed_part(
                address@,
                data@.subrange(0, 64),
                data@.subrange(64, 74),
                data@.subrange(74, 84),
            ));
        }
        let valid: bool = primitives::ed25519_verify(&signing_key, signed.as_slice(), &signature);
        return Some(Announced { address, signing_key, signed: valid });
    }
    if data.len() >= 64 {
        return Some(
            Announced { address: from, signing_key: wire::read_32(data, 32), signed: false },
        );
    }
    if data.len() >= 32 {
        return Some(
            Announced { address: from, signing_key: wire::read_32(data, 0), signed: false },
        );
    }
    None
}

/// The announce of an identity tells its Ed25519 key.
pub proof fn law_announce_tells_key(keys: Keys, random: Seq<u8>, now: u64, from: Seq<u8>)
    requires
        announce_packet(keys, random, now).data.len() == FULL_ANNOUNCE_LEN,
        keys.exchange().len() == 32,
        keys.identity().len() == 32,
    ensures
        announced(from, announce_packet(keys, random, now).data) matches Some(a) && a.1
            == keys.identity() && a.0 == rns_address::rns_hash(keys.exchange() + keys.identity()),
{
    let data = announce_packet(keys, random, now).data;
    assert(data.subrange(32, 64) =~= keys.identity());
    assert(data.subrange(0, 64) =~= keys.exchange() + keys.identity());
}

/// What an announce says comes from fixed places: a full one has the Ed25519 key behind
/// the X25519 key, and its sender's address is that of both keys; a shorter one has the
/// key behind another, or alone, and its sender is where it came from. What is shorter
/// than a key says nothing.
pub proof fn law_announce_places(from: Seq<u8>, data: Seq<u8>)
    ensures
        data.len() >= 148 ==> (announced(from, data) matches Some(a) && a.0
            == primitives::sha256_digest(data.subrange(0, 64)).subrange(0, 16) && a.1
            == data.subrange(32, 64)),
        64 <= data.len() < 148 ==> announced(from, data) == Some(
            (from, data.subrange(32, 64), false),
        ),
        32 <= data.len() < 64 ==> announced(from, data) == Some((from, data.subrange(0, 32), false)),
        data.len() < 32 ==> announced(from, data) is None,
{
}

/// A full announce counts as signed exactly where the key in it accepts its last 64 bytes
/// as a signature of its sender's address and everything in front of them.
pub proof fn law_announce_signature(from: Seq<u8>, data: Seq<u8>)
    requires
        data.len() == 148,
    ensures
        announced(from, data) matches Some(a) && a.2 == primitives::ed25519_accepts(
            data.subrange(32, 64),
            a.0 + data.subrange(0, 84),
            data.subrange(84, 148),
        ),
{
    let addr = rns_address::rns_hash(data.subrange(0, 64));
    assert(signed_part(
        addr,
        data.subrange(0, 64),
        data.subrange(64, 74),
        data.subrange(74, 84),
    ) =~= addr + data.subrange(0, 84));
}

/// The announce of an identity goes to everyone, names the address of its Ed25519 key, and
/// carries its X25519 key, its Ed25519 key, ten bytes that tell the application, five
/// random bytes and the time.
pub proof fn law_announce_carries(keys: Keys, random: Seq<u8>, now: u64)
    requires
        keys.exchange().len() == 32,
        keys.identity().len() == 32,
        random.len() == 5,
        announce_packet(keys, random, now).data.len() == 148,
        primitives::sha256_digest(utf8::encode_utf8("daemon"@)).len() == 32,
    ensures
        ({
            let p = announce_packet(keys, random, now);
            &&& p.packet_type == packet::ANNOUNCE
            &&& p.transport_type == packet::TRANSPORT_BROADCAST
            &&& p.destination_hash == primitives::sha256_digest(keys.identity()).subrange(0, 16)
            &&& p.data.subrange(0, 32) == keys.exchange()
            &&& p.data.subrange(32, 64) == keys.identity()
            &&& p.data.subrange(64, 74) == primitives::sha256_digest(
                utf8::encode_utf8("daemon"@),
            ).subrange(0, 10)
            &&& p.data.subrange(74, 79) == random
        }),
{
    let p = announce_packet(keys, random, now);
    wire::lemma_le_len(now as nat, 5);
    assert(p.data.subrange(0, 32) =~= keys.exchange());
    assert(p.data.subrange(32, 64) =~= keys.identity());
    assert(p.data.subrange(64, 74) =~= name_hash());
    assert(p.data.subrange(74, 79) =~= random);
}

} // verus!
