//! Links: bidirectional authenticated channels between two destinations.
//!
//! ```text
//!   Closed --[establish]--> Handshaking --[proof verified]--> Established
//!     ^                                                           |
//!     +----------------------[close]------------------------------+
//! ```

use crate::crypto::primitives;
use crate::destination::Destination;
use crate::identity::crypto;
use crate::identity::rns_address;
use crate::identity::{Keys, RnsAddress};
use crate::packet;
use crate::packet::{Packet, PacketModel};
use crate::text;
use crate::transport::error::{TransportError, TransportFault};
use crate::transport::proofs;
use crate::transport::proofs::Proof;
use crate::wire;
use vstd::prelude::*;

verus! {

/// Configuration of a link.
#[derive(Debug, Clone, Copy, PartialEq, Eq, Structural)]
pub struct LinkConfig {
    /// Maximum transmission unit.
    pub mtu: u16,
    /// Maximum number of retries of the handshake.
    pub max_retries: u32,
    /// Timeout of the handshake, in milliseconds.
    pub handshake_timeout_ms: u64,
}

impl Default for LinkConfig {
    fn default() -> (c: Self)
        ensures
            c == (LinkConfig { mtu: 500, max_retries: 3, handshake_timeout_ms: 30_000 }),
    {
        LinkConfig { mtu: 500, max_retries: 3, handshake_timeout_ms: 30_000 }
    }
}

impl LinkConfig {
    /// A builder in which nothing is set.
    pub fn builder() -> (b: LinkConfigBuilder)
        ensures
            b == (LinkConfigBuilder {
                mtu: None,
                max_retries: None,
                handshake_timeout_ms: None,
            }),
    {
        LinkConfigBuilder { mtu: None, max_retries: None, handshake_timeout_ms: None }
    }
}

/// Builder of a [`LinkConfig`].
#[derive(Debug, Clone, Copy)]
pub struct LinkConfigBuilder {
    pub mtu: Option<u16>,
    pub max_retries: Option<u32>,
    pub handshake_timeout_ms: Option<u64>,
}

impl LinkConfigBuilder {
    pub fn mtu(self, mtu: u16) -> (b: Self)
        ensures
            b == (LinkConfigBuilder { mtu: Some(mtu), ..self }),
    {
        LinkConfigBuilder { mtu: Some(mtu), ..self }
    }

    pub fn max_retries(self, retries: u32) -> (b: Self)
        ensures
            b == (LinkConfigBuilder { max_retries: Some(retries), ..self }),
    {
        LinkConfigBuilder { max_retries: Some(retries), ..self }
    }

    pub fn handshake_timeout_ms(self, ms: u64) -> (b: Self)
        ensures
            b == (LinkConfigBuilder { handshake_timeout_ms: Some(ms), ..self }),
    {
        LinkConfigBuilder { handshake_timeout_ms: Some(ms), ..self }
    }

    /// The configuration; what is not set has its default.
    pub fn build(self) -> (c: LinkConfig)
        ensures
            c.mtu == (match self.mtu {
                Some(m) => m,
                None => 500,
            }),
            c.max_retries == (match self.max_retries {
                Some(m) => m,
                None => 3,
            }),
            c.handshake_timeout_ms == (match self.handshake_timeout_ms {
                Some(m) => m,
                None => 30_000,
            }),
    {
        LinkConfig {
            mtu: self.mtu.unwrap_or(500),
            max_retries: self.max_retries.unwrap_or(3),
            handshake_timeout_ms: self.handshake_timeout_ms.unwrap_or(30_000),
        }
    }
}

/// The state of a link.
#[derive(Debug, Clone, Copy, PartialEq, Eq, Structural)]
pub enum LinkState {
    Closed,
    /// The proof handshake is in progress.
    Handshaking,
    /// Data can be transferred.
    Established,
}

/// Two 16-byte strings, combined bit by bit.
pub open spec fn xor_16(a: Seq<u8>, b: Seq<u8>) -> Seq<u8> {
    Seq::new(16, |i: int| a[i] ^ b[i])
}

/// Both ends of a link derive the same transport id.
pub proof fn law_transport_id_symmetric(a: Seq<u8>, b: Seq<u8>)
    ensures
        xor_16(a, b) == xor_16(b, a),
{
    assert forall|i: int| 0 <= i < 16 implies xor_16(a, b)[i] == xor_16(b, a)[i] by {
        let x = a[i];
        let y = b[i];
        assert(x ^ y == y ^ x) by (bit_vector);
    }
    assert(xor_16(a, b) =~= xor_16(b, a));
}

/// Combines two addresses into a transport id.
pub(crate) fn combine_16(a: &[u8; 16], b: &[u8; 16]) -> (id: [u8; 16])
    ensures
        id@ == xor_16(a@, b@),
{
    let mut id: [u8; 16] = [0u8; 16];
    let mut i: usize = 0;
    while i < 16
        invariant
            i <= 16,
            forall|j: int| 0 <= j < i ==> id@[j] == a@[j] ^ b@[j],
        decreases 16 - i,
    {
        id[i] = a[i] ^ b[i];
        i = i + 1;
    }
    assert(id@ =~= xor_16(a@, b@));
    id
}

/// A packet on a link.
pub open spec fn on_link(
    remote: Seq<u8>,
    transport_id: Seq<u8>,
    packet_type: u8,
    context_flag: u8,
    context: u8,
    data: Seq<u8>,
) -> PacketModel {
    PacketModel {
        header_type: packet::HEADER_2,
        context_flag,
        transport_type: packet::TRANSPORT_UNICAST,
        destination_type: packet::DEST_LINK,
        packet_type,
        hops: packet::MAX_HOPS,
        destination_hash: remote,
        transport_id: Some(transport_id),
        context,
        data,
    }
}

/// Makes a packet on a link.
pub(crate) fn link_packet(
    remote: &RnsAddress,
    transport_id: &[u8; 16],
    packet_type: u8,
    context_flag: u8,
    context: u8,
    data: Vec<u8>,
) -> (p: Packet)
    ensures
        p@ == on_link(remote@, transport_id@, packet_type, context_flag, context, data@),
{
    Packet {
        header_type: packet::HEADER_2,
        context_flag,
        transport_type: packet::TRANSPORT_UNICAST,
        destination_type: packet::DEST_LINK,
        packet_type,
        hops: packet::MAX_HOPS,
        destination_hash: *remote.as_bytes(),
        transport_id: Some(*transport_id),
        context,
        data,
    }
}

/// The outcome of checking a proof from the other end: what is wrong with it, if
/// anything.
pub open spec fn proof_outcome(public: Seq<u8>, transport_id: Seq<u8>, bytes: Seq<u8>) -> Option<
    TransportFault,
> {
    if bytes.len() != 96 {
        Some(
            TransportFault::ProofError(
                "invalid proof format: "@ + proofs::length_fault(bytes.len()),
            ),
        )
    } else if !proofs::proves(
        public,
        transport_id,
        bytes.subrange(0, 32),
        bytes.subrange(32, 96),
    ) {
        Some(TransportFault::SignatureVerification)
    } else {
        None
    }
}

/// Checks a proof from the other end.
pub(crate) fn check_proof(public: &[u8; 32], transport_id: &[u8; 16], bytes: &[u8]) -> (r: Result<
    (),
    TransportError,
>)
    ensures
        (match r {
            Ok(_) => proof_outcome(public@, transport_id@, bytes@) is None,
            Err(e) => proof_outcome(public@, transport_id@, bytes@) == Some(e@),
        }),
{
    match Proof::from_bytes(bytes) {
        Ok(p) => {
            match proofs::verify_proof_with_public_key(public, transport_id.as_slice(), &p) {
                Ok(_) => Ok(()),
                Err(_) => Err(TransportError::SignatureVerification),
            }
        },
        Err(e) => Err(TransportError::ProofError(e.to_string())),
    }
}

/// A proof of the transport id by the holder of the public key is in order.
pub proof fn law_own_proof_accepted(public: Seq<u8>, transport_id: Seq<u8>, p: Proof)
    requires
        proofs::proves(public, transport_id, p.packet_hash@, p.signature@),
    ensures
        proof_outcome(public, transport_id, p.bytes()) is None,
{
    proofs::law_proof_roundtrip(p);
}

/// A bidirectional channel to another destination.
pub struct Link {
    /// The local destination.
    pub local: Destination,
    /// The address of the remote destination.
    pub remote: RnsAddress,
    /// The remote X25519 key. With it, data is encrypted.
    pub remote_encryption_key: Option<[u8; 32]>,
    /// The remote Ed25519 key, against which the handshake is verified.
    pub remote_signing_key: Option<[u8; 32]>,
    pub config: LinkConfig,
    pub state: LinkState,
    /// Identifies the link on the wire.
    pub transport_id: [u8; 16],
    /// Whether this end began the handshake.
    pub initiator: bool,
    /// Received messages.
    pub inbound: Vec<Vec<u8>>,
    /// Packets that were sent.
    pub outbound: Vec<Packet>,
}

impl Link {
    /// A new link, not yet established. Its transport id combines both addresses.
    pub fn new(local: Destination, remote: RnsAddress) -> (l: Self)
        ensures
            l.local == local,
            l.remote == remote,
            l.config == (LinkConfig { mtu: 500, max_retries: 3, handshake_timeout_ms: 30_000 }),
            l.state == LinkState::Closed,
            l.transport_id@ == xor_16(local.hash@, remote@),
            l.remote_encryption_key is None,
            l.remote_signing_key is None,
            l.initiator,
            l.inbound@.len() == 0,
            l.outbound@.len() == 0,
    {
        Link::with_config(local, remote, LinkConfig::default())
    }

    /// A new link with the given configuration.
    pub fn with_config(local: Destination, remote: RnsAddress, config: LinkConfig) -> (l: Self)
        ensures
            l.local == local,
            l.remote == remote,
            l.config == config,
            l.state == LinkState::Closed,
            l.transport_id@ == xor_16(local.hash@, remote@),
            l.remote_encryption_key is None,
            l.remote_signing_key is None,
            l.initiator,
            l.inbound@.len() == 0,
            l.outbound@.len() == 0,
    {
        let transport_id: [u8; 16] = Link::derive_transport_id(local.hash(), &remote);
        Link {
            local,
            remote,
            remote_encryption_key: None,
            remote_signing_key: None,
            config,
            state: LinkState::Closed,
            transport_id,
            initiator: true,
            inbound: Vec::new(),
            outbound: Vec::new(),
        }
    }

    /// The local destination.
    pub fn local(&self) -> (d: &Destination)
        ensures
            *d == self.local,
    {
        &self.local
    }

    /// The address of the remote destination.
    pub fn remote(&self) -> (a: &RnsAddress)
        ensures
            *a == self.remote,
    {
        &self.remote
    }

    /// The state.
    pub fn state(&self) -> (s: LinkState)
        ensures
            s == self.state,
    {
        self.state
    }

    /// The transport id.
    pub fn transport_id(&self) -> (id: &[u8; 16])
        ensures
            *id == self.transport_id,
    {
        &self.transport_id
    }

    /// The configuration.
    pub fn config(&self) -> (c: &LinkConfig)
        ensures
            *c == self.config,
    {
        &self.config
    }

    /// Whether the link is established.
    pub fn is_established(&self) -> (r: bool)
        ensures
            r <==> self.state == LinkState::Established,
    {
        self.state == LinkState::Established
    }

    /// Sets the remote X25519 key; from then on data is encrypted.
    pub fn set_remote_encryption_key(&mut self, key: [u8; 32])
        ensures
            *final(self) == (Link { remote_encryption_key: Some(key), ..*old(self) }),
    {
        self.remote_encryption_key = Some(key);
    }

    /// Sets the remote Ed25519 key, against which the handshake is verified.
    pub fn set_remote_signing_key(&mut self, key: [u8; 32])
        ensures
            *final(self) == (Link { remote_signing_key: Some(key), ..*old(self) }),
    {
        self.remote_signing_key = Some(key);
    }

    /// Sets the state, where the handshake was done elsewhere.
    pub fn set_state(&mut self, state: LinkState)
        ensures
            *final(self) == (Link { state, ..*old(self) }),
    {
        self.state = state;
    }

    /// Sets the identifier of the link on the wire.
    pub fn set_link_id(&mut self, id: [u8; 16])
        ensures
            *final(self) == (Link { transport_id: id, ..*old(self) }),
    {
        self.transport_id = id;
    }

    /// Sets whether this end began the handshake.
    pub fn set_initiator(&mut self, initiator: bool)
        ensures
            *final(self) == (Link { initiator, ..*old(self) }),
    {
        self.initiator = initiator;
    }

    /// Whether data is encrypted.
    pub fn is_encrypted(&self) -> (r: bool)
        ensures
            r <==> self.remote_encryption_key is Some,
    {
        self.remote_encryption_key.is_some()
    }

    /// Begins the handshake on a closed link, and returns the proof to send.
    pub fn establish(&mut self) -> (r: Result<Packet, TransportError>)
        ensures
            (match r {
                Ok(p) => old(self).state == LinkState::Closed && *final(self) == (Link {
                    state: LinkState::Handshaking,
                    ..*old(self)
                }) && p@ == on_link(
                    old(self).remote@,
                    old(self).transport_id@,
                    packet::PROOF,
                    packet::FLAG_SET,
                    packet::LINKPROOF,
                    primitives::sha256_digest(old(self).transport_id@)
                        + primitives::ed25519_signature(
                        old(self).local.keys.signing@,
                        old(self).transport_id@,
                    ),
                ) && proof_outcome(
                    old(self).local.keys.identity(),
                    old(self).transport_id@,
                    p@.data,
                ) is None,
                Err(e) => old(self).state != LinkState::Closed && *final(self) == *old(self) && e
                    == TransportError::LinkAlreadyEstablished,
            }),
    {
        match self.state {
            LinkState::Closed => {
                self.state = LinkState::Handshaking;
                let p: Proof = proofs::generate_proof(
                    self.local.keys(),
                    self.transport_id.as_slice(),
                );
                proof {
                    law_own_proof_accepted(self.local.keys.identity(), self.transport_id@, p);
                }
                Ok(
                    link_packet(
                        &self.remote,
                        &self.transport_id,
                        packet::PROOF,
                        packet::FLAG_SET,
                        packet::LINKPROOF,
                        p.to_bytes(),
                    ),
                )
            },
            _ => Err(TransportError::LinkAlreadyEstablished),
        }
    }

    /// The public key against which the handshake is verified: the remote one where it
    /// is known, else our own.
    pub open spec fn handshake_key(&self) -> Seq<u8> {
        match self.remote_signing_key {
            Some(k) => k@,
            None => self.local.keys.identity(),
        }
    }

    /// Completes the handshake with the proof of the other end.
    pub fn complete_handshake(&mut self, proof_bytes: &[u8]) -> (r: Result<(), TransportError>)
        ensures
            (match old(self).state {
                LinkState::Closed => r == Err::<(), TransportError>(
                    TransportError::LinkNotEstablished,
                ) && *final(self) == *old(self),
                LinkState::Established => r == Err::<(), TransportError>(
                    TransportError::LinkAlreadyEstablished,
                ) && *final(self) == *old(self),
                LinkState::Handshaking => match proof_outcome(
                    old(self).handshake_key(),
                    old(self).transport_id@,
                    proof_bytes@,
                ) {
                    None => r == Ok::<(), TransportError>(()) && *final(self) == (Link {
                        state: LinkState::Established,
                        ..*old(self)
                    }),
                    Some(f) => (r matches Err(e) && e@ == f) && *final(self) == *old(self),
                },
            }),
    {
        match self.state {
            LinkState::Closed => Err(TransportError::LinkNotEstablished),
            LinkState::Established => Err(TransportError::LinkAlreadyEstablished),
            LinkState::Handshaking => {
                let key: [u8; 32] = match self.remote_signing_key {
                    Some(k) => k,
                    None => self.local.keys().identity_key_bytes(),
                };
                match check_proof(&key, &self.transport_id, proof_bytes) {
                    Ok(_) => {
                        self.state = LinkState::Established;
                        Ok(())
                    },
                    Err(e) => Err(e),
                }
            },
        }
    }

    /// Takes in the proof of an end that began the handshake, establishes the link, and
    /// returns the proof to answer with.
    pub fn handle_incoming_proof(&mut self, remote_keys: &Keys, proof_bytes: &[u8]) -> (r: Result<
        Packet,
        TransportError,
    >)
        ensures
            (match r {
                Ok(p) => old(self).state != LinkState::Established && proof_outcome(
                    remote_keys.identity(),
                    old(self).transport_id@,
                    proof_bytes@,
                ) is None && *final(self) == (Link {
                    state: LinkState::Established,
                    ..*old(self)
                }) && p@ == on_link(
                    old(self).remote@,
                    old(self).transport_id@,
                    packet::PROOF,
                    packet::FLAG_SET,
                    packet::LRPROOF,
                    primitives::sha256_digest(old(self).transport_id@)
                        + primitives::ed25519_signature(
                        old(self).local.keys.signing@,
                        old(self).transport_id@,
                    ),
                ) && proof_outcome(
                    old(self).local.keys.identity(),
                    old(self).transport_id@,
                    p@.data,
                ) is None,
                Err(e) => *final(self) == *old(self) && (if old(self).state
                    == LinkState::Established {
                    e == TransportError::LinkAlreadyEstablished
                } else {
                    proof_outcome(remote_keys.identity(), old(self).transport_id@, proof_bytes@)
                        == Some(e@)
                }),
            }),
    {
        match self.state {
            LinkState::Established => Err(TransportError::LinkAlreadyEstablished),
            _ => {
                let key: [u8; 32] = remote_keys.identity_key_bytes();
                match check_proof(&key, &self.transport_id, proof_bytes) {
                    Ok(_) => {
                        self.state = LinkState::Established;
                        let p: Proof = proofs::generate_proof(
                            self.local.keys(),
                            self.transport_id.as_slice(),
                        );
                        proof {
                            law_own_proof_accepted(
                                self.local.keys.identity(),
                                self.transport_id@,
                                p,
                            );
                        }
                        Ok(
                            link_packet(
                                &self.remote,
                                &self.transport_id,
                                packet::PROOF,
                                packet::FLAG_SET,
                                packet::LRPROOF,
                                p.to_bytes(),
                            ),
                        )
                    },
                    Err(e) => Err(e),
                }
            },
        }
    }

    /// Closes the link. Messages and packets that are queued are dropped.
    pub fn close(&mut self) -> (r: Result<(), TransportError>)
        ensures
            (match old(self).state {
                LinkState::Closed => r == Err::<(), TransportError>(TransportError::LinkClosed)
                    && *final(self) == *old(self),
                _ => r == Ok::<(), TransportError>(()) && *final(self) == (Link {
                    state: LinkState::Closed,
                    inbound: final(self).inbound,
                    outbound: final(self).outbound,
                    ..*old(self)
                }) && final(self).inbound@.len() == 0 && final(self).outbound@.len() == 0,
            }),
    {
        match self.state {
            LinkState::Closed => Err(TransportError::LinkClosed),
            _ => {
                self.state = LinkState::Closed;
                self.inbound.clear();
                self.outbound.clear();
                Ok(())
            },
        }
    }

    /// How many bytes `n` bytes of data take in a packet of this link.
    pub open spec fn payload_len(&self, n: nat) -> nat {
        if self.remote_encryption_key is Some {
            80 + primitives::padded_len(n)
        } else {
            n
        }
    }

    /// What a packet of this link carries for `data`, with the given ephemeral secret
    /// and IV where data is encrypted.
    pub open spec fn payload(&self, data: Seq<u8>, ephemeral: Seq<u8>, iv: Seq<u8>) -> Seq<u8> {
        match self.remote_encryption_key {
            Some(k) => crypto::boxed(ephemeral, k@, self.remote@, iv, data),
            None => data,
        }
    }

    /// Sends data: returns the packet, and queues it. Data is encrypted with fresh
    /// randomness where the remote key is known.
    pub fn send(&mut self, data: Vec<u8>) -> (r: Result<Packet, TransportError>)
        ensures
            exists|ephemeral: Seq<u8>, iv: Seq<u8>|
                ephemeral.len() == 32 && iv.len() == 16 && #[trigger] send_effect(
                    *old(self),
                    *final(self),
                    data@,
                    ephemeral,
                    iv,
                    r,
                ),
    {
        let ephemeral: [u8; 32] = primitives::random_32();
        let iv: [u8; 16] = primitives::os_random_16();
        let r: Result<Packet, TransportError> = self.send_with(data, &ephemeral, &iv);
        assert(send_effect(*old(self), *self, data@, ephemeral@, iv@, r));
        r
    }

    /// Sends data, with the given ephemeral secret and IV where it is encrypted.
    pub fn send_with(&mut self, data: Vec<u8>, ephemeral: &[u8; 32], iv: &[u8; 16]) -> (r: Result<
        Packet,
        TransportError,
    >)
        ensures
            send_effect(*old(self), *final(self), data@, ephemeral@, iv@, r),
    {
        if self.state != LinkState::Established {
            return Err(TransportError::LinkNotEstablished);
        }
        let payload: Vec<u8> = match &self.remote_encryption_key {
            Some(k) => Keys::encrypt_for_with(
                k,
                self.remote.as_bytes(),
                data.as_slice(),
                ephemeral,
                iv,
            ),
            None => data,
        };
        if payload.len() > self.config.mtu as usize {
            return Err(TransportError::InvalidChunkSize(payload.len()));
        }
        let p: Packet = link_packet(
            &self.remote,
            &self.transport_id,
            packet::DATA,
            packet::FLAG_UNSET,
            packet::NONE,
            payload,
        );
        self.outbound.push(p.duplicate());
        assert(packet::models(self.outbound@) =~= packet::models(old(self).outbound@).push(p@));
        Ok(p)
    }

    /// What a packet brings: the message, or what is wrong with it.
    pub open spec fn delivered(&self, p: PacketModel) -> Result<Seq<u8>, TransportFault> {
        if self.state != LinkState::Established {
            Err(TransportFault::LinkNotEstablished)
        } else if p.transport_id != Some(self.transport_id@) {
            Err(TransportFault::Other("transport ID mismatch"@))
        } else if self.remote_encryption_key is Some {
            decrypted(self.local.keys, p.data)
        } else {
            Ok(p.data)
        }
    }

    /// Takes in a packet of this link; its message can then be received.
    pub fn deliver(&mut self, packet: &Packet) -> (r: Result<(), TransportError>)
        ensures
            (match old(self).delivered(packet@) {
                Ok(m) => r == Ok::<(), TransportError>(()) && *final(self) == (Link {
                    inbound: final(self).inbound,
                    ..*old(self)
                }) && wire::all_bytes(final(self).inbound@) == wire::all_bytes(
                    old(self).inbound@,
                ).push(m),
                Err(f) => (r matches Err(e) && e@ == f) && *final(self) == *old(self),
            }),
    {
        if self.state != LinkState::Established {
            return Err(TransportError::LinkNotEstablished);
        }
        if !same_id(&packet.transport_id, &self.transport_id) {
            return Err(TransportError::Other("transport ID mismatch".to_owned()));
        }
        let message: Vec<u8> = if self.remote_encryption_key.is_some() {
            match decrypt(self.local.keys(), packet.data.as_slice()) {
                Ok(m) => m,
                Err(e) => {
                    return Err(e);
                },
            }
        } else {
            wire::copy_all(packet.data.as_slice())
        };
        self.inbound.push(message);
        assert(wire::all_bytes(self.inbound@) =~= wire::all_bytes(old(self).inbound@).push(
            message@,
        ));
        Ok(())
    }

    /// The oldest received message, if there is one.
    pub fn recv(&mut self) -> (m: Option<Vec<u8>>)
        ensures
            (match m {
                Some(b) => old(self).inbound@.len() > 0 && b == old(self).inbound@[0] && *final(self)
                    == (Link { inbound: final(self).inbound, ..*old(self) }) && final(self).inbound@
                    == old(self).inbound@.subrange(1, old(self).inbound@.len() as int),
                None => old(self).inbound@.len() == 0 && *final(self) == *old(self),
            }),
    {
        if self.inbound.len() == 0 {
            None
        } else {
            let m: Vec<u8> = self.inbound.remove(0);
            assert(self.inbound@ =~= old(self).inbound@.subrange(
                1,
                old(self).inbound@.len() as int,
            ));
            Some(m)
        }
    }

    /// How many messages wait to be received.
    pub fn pending_inbound(&self) -> (n: usize)
        ensures
            n == self.inbound@.len(),
    {
        self.inbound.len()
    }

    /// How many sent packets are queued.
    pub fn pending_outbound(&self) -> (n: usize)
        ensures
            n == self.outbound@.len(),
    {
        self.outbound.len()
    }

    /// Combines the addresses of both ends into the transport id.
    pub fn derive_transport_id(local: &RnsAddress, remote: &RnsAddress) -> (id: [u8; 16])
        ensures
            id@ == xor_16(local@, remote@),
    {
        combine_16(local.as_bytes(), remote.as_bytes())
    }
}

/// What sending `data` does to a link, and what it returns: the packet, which is also
/// queued, and which the holder of the remote key can read; or an error where the link
/// is not established or the payload exceeds the MTU, and nothing changes.
pub open spec fn send_effect(
    before: Link,
    after: Link,
    data: Seq<u8>,
    ephemeral: Seq<u8>,
    iv: Seq<u8>,
    r: Result<Packet, TransportError>,
) -> bool {
    if before.state != LinkState::Established {
        r == Err::<Packet, TransportError>(TransportError::LinkNotEstablished) && after == before
    } else if before.payload_len(data.len()) > before.config.mtu {
        (r matches Err(TransportError::InvalidChunkSize(n)) && n == before.payload_len(data.len()))
            && after == before
    } else {
        &&& r matches Ok(p)
        &&& p@ == on_link(
            before.remote@,
            before.transport_id@,
            packet::DATA,
            packet::FLAG_UNSET,
            packet::NONE,
            before.payload(data, ephemeral, iv),
        )
        &&& (before.remote_encryption_key matches Some(k) ==> forall|secret: Seq<u8>|
            secret.len() == 32 && k@ == #[trigger] primitives::x25519_public(secret)
                ==> crypto::unboxed(secret, before.remote@, p@.data) == Ok::<
                Seq<u8>,
                crypto::CryptoFault,
            >(data))
        &&& after == Link { outbound: after.outbound, ..before }
        &&& packet::models(after.outbound@) == packet::models(before.outbound@).push(p@)
    }
}

/// What an identity reads from an encrypted payload.
pub open spec fn decrypted(keys: Keys, data: Seq<u8>) -> Result<Seq<u8>, TransportFault> {
    match crypto::unboxed(keys.encryption@, rns_address::rns_hash(keys.identity()), data) {
        Ok(m) => Ok(m),
        Err(f) => Err(TransportFault::Other("decryption: "@ + fault_text(f))),
    }
}

/// Whether `receiver` is the other end that `sender` sends to: both are established
/// under the same transport id, and either both leave data as it is, or the sender
/// encrypts for the keys and the address of the receiver.
pub open spec fn ends_of_one_link(sender: Link, receiver: Link) -> bool {
    let keys = receiver.local.keys;
    &&& sender.state == LinkState::Established
    &&& receiver.state == LinkState::Established
    &&& sender.transport_id@ == receiver.transport_id@
    &&& match sender.remote_encryption_key {
        Some(k) => receiver.remote_encryption_key is Some && k@ == keys.exchange() && sender.remote@
            == rns_address::rns_hash(keys.identity()),
        None => receiver.remote_encryption_key is None,
    }
}

/// Two links that were made for each other derive the same transport id, so that a
/// proof that either end makes of its own id is in order for the other end.
pub proof fn law_handshake(a: Link, b: Link, proof_bytes: Seq<u8>)
    requires
        a.transport_id@ == xor_16(a.local.hash@, a.remote@),
        b.transport_id@ == xor_16(b.local.hash@, b.remote@),
        a.remote@ == b.local.hash@,
        b.remote@ == a.local.hash@,
        proof_outcome(a.local.keys.identity(), a.transport_id@, proof_bytes) is None,
    ensures
        a.transport_id@ == b.transport_id@,
        proof_outcome(a.local.keys.identity(), b.transport_id@, proof_bytes) is None,
{
    law_transport_id_symmetric(a.local.hash@, b.local.hash@);
}

/// The other end of a link receives what was sent.
pub proof fn law_link_delivers(
    sender: Link,
    after: Link,
    receiver: Link,
    data: Seq<u8>,
    ephemeral: Seq<u8>,
    iv: Seq<u8>,
    p: Packet,
)
    requires
        ends_of_one_link(sender, receiver),
        send_effect(sender, after, data, ephemeral, iv, Ok(p)),
    ensures
        receiver.delivered(p@) == Ok::<Seq<u8>, TransportFault>(data),
{
    let secret = receiver.local.keys.encryption@;
    assert(secret.len() == 32);
    assert(receiver.local.keys.exchange() == primitives::x25519_public(secret));
}

/// The text of a cryptographic error.
pub open spec fn fault_text(f: crypto::CryptoFault) -> Seq<char> {
    match f {
        crypto::CryptoFault::Encryption => "encryption failed"@,
        crypto::CryptoFault::Decryption(m) => "decryption: "@ + m,
        crypto::CryptoFault::Rng => "random number generation failed"@,
    }
}

/// Decrypts a payload.
pub(crate) fn decrypt(keys: &Keys, data: &[u8]) -> (r: Result<Vec<u8>, TransportError>)
    ensures
        (match r {
            Ok(m) => decrypted(*keys, data@) == Ok::<Seq<u8>, TransportFault>(m@),
            Err(e) => decrypted(*keys, data@) == Err::<Seq<u8>, TransportFault>(e@),
        }),
{
    match keys.decrypt_from(data) {
        Ok(m) => Ok(m),
        Err(e) => Err(TransportError::Other(text::join("decryption: ", e.to_string().as_str()))),
    }
}

/// Whether a packet carries the given transport id.
pub(crate) fn same_id(carried: &Option<[u8; 16]>, id: &[u8; 16]) -> (r: bool)
    ensures
        r <==> packet::hash_view(*carried) == Some(id@),
{
    match carried {
        Some(c) => wire::same_bytes(c.as_slice(), id.as_slice()),
        None => false,
    }
}

/// Two links shake hands: the proof that the one begins with establishes the other, and
/// the proof that answers it establishes the first, where each has the other's address and
/// key. Both are then established under one id.
pub proof fn law_links_shake_hands(
    begun: &mut Link,
    answered: &mut Link,
    completed: &mut Link,
    first: Packet,
    a_keys: &Keys,
    first_bytes: &[u8],
    second: Result<Packet, TransportError>,
    second_bytes: &[u8],
    r: Result<(), TransportError>,
)
    requires
        call_ensures(Link::establish, (begun,), Ok(first)),
        a_keys.identity() == old(begun).local.keys.identity(),
        old(begun).transport_id@ == xor_16(old(begun).local.hash@, old(begun).remote@),
        old(answered).transport_id@ == xor_16(old(answered).local.hash@, old(answered).remote@),
        old(begun).remote@ == old(answered).local.hash@,
        old(answered).remote@ == old(begun).local.hash@,
        old(answered).state != LinkState::Established,
        first_bytes@ == first.data@,
        call_ensures(Link::handle_incoming_proof, (answered, a_keys, first_bytes), second),
        second matches Ok(p) ==> second_bytes@ == p.data@,
        *old(completed) == *final(begun),
        old(begun).remote_signing_key matches Some(k) && k@ == old(answered).local.keys.identity(),
        call_ensures(Link::complete_handshake, (completed, second_bytes), r),
    ensures
        second is Ok,
        r == Ok::<(), TransportError>(()),
        final(answered).state == LinkState::Established,
        final(completed).state == LinkState::Established,
        final(completed).transport_id@ == final(answered).transport_id@,
{
    assert(first@.data == first.data@);
    law_handshake(*begun, *answered, first_bytes@);
    if let Ok(p) = second {
        assert(p@.data == p.data@);
        law_transport_id_symmetric(begun.local.hash@, begun.remote@);
    }
}

/// A link begins a handshake only where it is closed: the first packet goes to the other
/// end on this link, and proves the link's id with the local key.
pub proof fn law_establish_begins(l: &mut Link, r: Result<Packet, TransportError>)
    requires
        call_ensures(Link::establish, (l,), r),
    ensures
        r is Ok <==> old(l).state == LinkState::Closed,
        r is Err ==> *final(l) == *old(l),
        r matches Ok(p) ==> final(l).state == LinkState::Handshaking && p.destination_hash@ == old(l).remote@ && p@.transport_id == Some(old(l).transport_id@) && p.packet_type == 3
            && p.context == 0xFD && p.data@.len() == 96 && p.data@.subrange(0, 32)
            == primitives::sha256_digest(old(l).transport_id@) && primitives::ed25519_accepts(
            old(l).local.keys.identity(),
            old(l).transport_id@,
            p.data@.subrange(32, 96),
        ),
{
    if let Ok(p) = r {
        assert(p@.data == p.data@);
        assert(p@.destination_hash == p.destination_hash@);
    }
}

/// Only a proof of the link's id, by the key of the other end, establishes a link that
/// shakes hands; with any other, and in any other state, the link stays as it is.
pub proof fn law_only_proof_establishes(l: &mut Link, bytes: &[u8], r: Result<(), TransportError>)
    requires
        call_ensures(Link::complete_handshake, (l, bytes), r),
    ensures
        r is Ok <==> {
            &&& old(l).state == LinkState::Handshaking
            &&& bytes@.len() == 96
            &&& bytes@.subrange(0, 32) == primitives::sha256_digest(old(l).transport_id@)
            &&& primitives::ed25519_accepts(
                old(l).handshake_key(),
                old(l).transport_id@,
                bytes@.subrange(32, 96),
            )
        },
        r is Ok ==> final(l).state == LinkState::Established,
        r is Err ==> *final(l) == *old(l),
        old(l).remote_signing_key matches Some(k) ==> old(l).handshake_key() == k@,
{
}

/// What is sent at one end of a link is received at the other: it is delivered, and where
/// nothing else waits there, it is what is received next. Nothing is left then.
pub proof fn law_sent_is_received(
    sender: &mut Link,
    data: Vec<u8>,
    p: Packet,
    receiver: &mut Link,
    r: Result<(), TransportError>,
    reader: &mut Link,
    m: Option<Vec<u8>>,
)
    requires
        ends_of_one_link(*old(sender), *old(receiver)),
        call_ensures(Link::send, (sender, data), Ok(p)),
        call_ensures(Link::deliver, (receiver, &p), r),
        old(receiver).inbound@.len() == 0,
        *old(reader) == *final(receiver),
        call_ensures(Link::recv, (reader,), m),
    ensures
        r == Ok::<(), TransportError>(()),
        m matches Some(b) && b@ == data@,
        final(reader).inbound@.len() == 0,
{
    let (ephemeral, iv) = choose|ephemeral: Seq<u8>, iv: Seq<u8>|
        ephemeral.len() == 32 && iv.len() == 16 && #[trigger] send_effect(
            *sender,
            *final(sender),
            data@,
            ephemeral,
            iv,
            Ok(p),
        );
    law_link_delivers(*sender, *final(sender), *receiver, data@, ephemeral, iv, p);
    assert(wire::all_bytes(receiver.inbound@) =~= Seq::<Seq<u8>>::empty());
    assert(wire::all_bytes(reader.inbound@).len() == 1);
    assert(wire::all_bytes(reader.inbound@)[0] == data@);
}

/// A link that is not established neither sends nor takes packets; a packet of another
/// link is refused; and what is longer than the MTU, with what encryption adds, is not
/// sent. Nothing changes then.
pub proof fn law_link_refuses(
    l: &mut Link,
    data: Vec<u8>,
    r: Result<Packet, TransportError>,
    k: &mut Link,
    p: &Packet,
    d: Result<(), TransportError>,
)
    requires
        call_ensures(Link::send, (l, data), r),
        call_ensures(Link::deliver, (k, p), d),
    ensures
        old(l).state != LinkState::Established ==> r is Err && *final(l) == *old(l),
        old(l).remote_encryption_key is None && data@.len() > old(l).config.mtu ==> r is Err
            && *final(l) == *old(l),
        old(l).state == LinkState::Established && old(l).remote_encryption_key is None
            && data@.len() <= old(l).config.mtu ==> (r matches Ok(q) && q.data@ == data@),
        old(k).state != LinkState::Established ==> d is Err && *final(k) == *old(k),
        p@.transport_id != Some(old(k).transport_id@) ==> d is Err && *final(k) == *old(k),
{
    let (ephemeral, iv) = choose|ephemeral: Seq<u8>, iv: Seq<u8>|
        ephemeral.len() == 32 && iv.len() == 16 && #[trigger] send_effect(
            *l,
            *final(l),
            data@,
            ephemeral,
            iv,
            r,
        );
    if let Ok(q) = r {
        assert(q@.data == q.data@);
    }
}

/// Closing a link drops what waits in it; a link that is closed cannot be closed again.
pub proof fn law_closed_link_is_empty(l: &mut Link, r: Result<(), TransportError>)
    requires
        call_ensures(Link::close, (l,), r),
    ensures
        final(l).state == LinkState::Closed,
        r is Ok <==> old(l).state != LinkState::Closed,
        r is Ok ==> final(l).inbound@.len() == 0 && final(l).outbound@.len() == 0,
        final(l).transport_id == old(l).transport_id,
{
}

/// What the builder is told stands in what it builds, whatever else it is told; the rest is
/// 500 bytes to a packet, three retries, and thirty seconds for the handshake.
pub proof fn law_built_config(
    fresh: LinkConfigBuilder,
    mtu: u16,
    with_mtu: LinkConfigBuilder,
    retries: u32,
    with_retries: LinkConfigBuilder,
    plain: LinkConfig,
    told: LinkConfig,
)
    requires
        call_ensures(LinkConfig::builder, (), fresh),
        call_ensures(LinkConfigBuilder::mtu, (fresh, mtu), with_mtu),
        call_ensures(LinkConfigBuilder::max_retries, (with_mtu, retries), with_retries),
        call_ensures(LinkConfigBuilder::build, (fresh,), plain),
        call_ensures(LinkConfigBuilder::build, (with_retries,), told),
    ensures
        plain.mtu == 500 && plain.max_retries == 3 && plain.handshake_timeout_ms == 30_000,
        told.mtu == mtu && told.max_retries == retries && told.handshake_timeout_ms == 30_000,
{
}

/// A link counts as established in that state alone, and encrypts exactly where it has been
/// given a key of the other end.
pub proof fn law_link_tells_its_state(
    l: &mut Link,
    key: [u8; 32],
    established: bool,
    before: bool,
    after: bool,
)
    requires
        call_ensures(Link::is_established, (&*old(l),), established),
        call_ensures(Link::is_encrypted, (&*old(l),), before),
        call_ensures(Link::set_remote_encryption_key, (l, key), ()),
        call_ensures(Link::is_encrypted, (&*final(l),), after),
    ensures
        established <==> old(l).state == LinkState::Established,
        before <==> old(l).remote_encryption_key is Some,
        after && final(l).remote_encryption_key == Some(key),
        final(l).state == old(l).state,
{
}

} // verus!
