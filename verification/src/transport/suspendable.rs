//! Links that survive disconnection.
//!
//! A suspended link keeps its session key, the identity of its peer and the messages
//! that were to be sent. When connectivity returns, it resumes with the same key.
//!
//! ```text
//! Closed --[establish]--> Handshaking --[proof verified]--> Active
//!                               ^                              |
//!                               |                    [suspend | disconnect]
//!                               |                              v
//!                               +---------[resume]-------- Suspended
//! ```
//!
//! A link with storage keeps a record of the suspended session. A link that is made
//! from such a record, in a new process, is suspended and can be resumed.

use crate::clock;
use crate::codec;
use crate::crypto::primitives;
use crate::destination::Destination;
use crate::identity::crypto;
use crate::identity::rns_address;
use crate::identity::{DerivedKey, Keys, RnsAddress};
use crate::packet;
use crate::packet::{Packet, PacketModel};
use crate::text;
use crate::transport::error::{TransportError, TransportFault};
use crate::transport::link;
use crate::transport::link::LinkConfig;
use crate::transport::proofs;
use crate::transport::proofs::Proof;
use crate::wire;
use vstd::prelude::*;

verus! {

/// The state of a link.
#[derive(Debug, Clone, Copy, PartialEq, Eq, Structural)]
pub enum SuspendableState {
    Closed,
    /// The proof handshake is in progress.
    Handshaking,
    /// Data can be transferred.
    Active,
    /// Keys are kept and messages are held.
    Suspended,
}

/// What is kept of a suspended session.
#[derive(Debug, Clone)]
pub struct SuspendedSession {
    pub session_id: Vec<u8>,
    pub remote_rns: Vec<u8>,
    pub local_rns: Vec<u8>,
    pub remote_identity_key: Vec<u8>,
    pub remote_encryption_key: Vec<u8>,
    /// The session key; empty where there was none.
    pub derived_key_bytes: Vec<u8>,
    /// Messages that were not sent.
    pub held_messages: Vec<Vec<u8>>,
    /// When the session was suspended, in seconds since the Unix epoch.
    pub suspended_at: u64,
    /// How many times the session was suspended.
    pub resume_count: u32,
}

impl View for SuspendedSession {
    type V = codec::SessionFields;

    open spec fn view(&self) -> codec::SessionFields {
        codec::SessionFields {
            session_id: self.session_id@,
            remote_rns: self.remote_rns@,
            local_rns: self.local_rns@,
            remote_identity_key: self.remote_identity_key@,
            remote_encryption_key: self.remote_encryption_key@,
            derived_key_bytes: self.derived_key_bytes@,
            held_messages: wire::all_bytes(self.held_messages@),
            suspended_at: self.suspended_at as nat,
            resume_count: self.resume_count as nat,
        }
    }
}

/// A session is read back from its record.
pub proof fn law_session_roundtrip(s: SuspendedSession)
    ensures
        codec::session_fields(codec::session_record(s@)) == Some(s@),
{
    assert(s.session_id.len() <= usize::MAX);
    assert(s.remote_rns.len() <= usize::MAX);
    assert(s.local_rns.len() <= usize::MAX);
    assert(s.remote_identity_key.len() <= usize::MAX);
    assert(s.remote_encryption_key.len() <= usize::MAX);
    assert(s.derived_key_bytes.len() <= usize::MAX);
    assert(s.held_messages.len() <= usize::MAX);
    assert forall|i: int| 0 <= i < s@.held_messages.len() implies (#[trigger] s@.held_messages[i]).len()
        <= u64::MAX by {
        assert(s.held_messages@[i].len() <= usize::MAX);
    }
    codec::lemma_session_record(s@);
}

impl SuspendedSession {
    /// The record of the session.
    pub fn to_bytes(&self) -> (bytes: Vec<u8>)
        ensures
            bytes@ == codec::session_record(self@),
    {
        codec::encode_session(
            (
                self.session_id.as_slice(),
                self.remote_rns.as_slice(),
                self.local_rns.as_slice(),
                self.remote_identity_key.as_slice(),
                self.remote_encryption_key.as_slice(),
                self.derived_key_bytes.as_slice(),
            ),
            &self.held_messages,
            self.suspended_at,
            self.resume_count,
        )
    }

    /// Reads a session from its record, or says what is wrong with it.
    pub fn from_bytes(bytes: &[u8]) -> (r: Result<Self, String>)
        ensures
            (match r {
                Ok(s) => codec::session_fields(bytes@) == Some(s@),
                Err(e) => codec::session_fields(bytes@) is None && (codec::wide() ==> e@
                    == codec::session_complaint(bytes@)),
            }),
    {
        match codec::decode_session(bytes) {
            Ok(p) => {
                let (
                    session_id,
                    remote_rns,
                    local_rns,
                    remote_identity_key,
                    remote_encryption_key,
                    derived_key_bytes,
                ) = p.head;
                Ok(
                    SuspendedSession {
                        session_id,
                        remote_rns,
                        local_rns,
                        remote_identity_key,
                        remote_encryption_key,
                        derived_key_bytes,
                        held_messages: p.held,
                        suspended_at: p.at,
                        resume_count: p.count,
                    },
                )
            },
            Err(e) => Err(e),
        }
    }
}

/// A copy of some messages.
fn copy_messages(v: &Vec<Vec<u8>>) -> (out: Vec<Vec<u8>>)
    ensures
        wire::all_bytes(out@) == wire::all_bytes(v@),
{
    let mut out: Vec<Vec<u8>> = Vec::new();
    let mut i: usize = 0;
    while i < v.len()
        invariant
            i <= v@.len(),
            out@.len() == i,
            forall|j: int| 0 <= j < i ==> (#[trigger] out@[j])@ == v@[j]@,
        decreases v@.len() - i,
    {
        out.push(wire::copy_all(v[i].as_slice()));
        i = i + 1;
    }
    assert(wire::all_bytes(out@) =~= wire::all_bytes(v@));
    out
}

/// Where the record of a suspended session is kept.
#[derive(Debug, Clone, PartialEq, Eq)]
pub enum Storage {
    /// Nowhere.
    Absent,
    /// In a place that holds a record, or none yet.
    Present(Option<Vec<u8>>),
}

/// A link that survives disconnection.
pub struct SuspendableLink {
    /// The local destination.
    pub local: Destination,
    /// The address of the peer.
    pub remote_rns: RnsAddress,
    /// The Ed25519 key of the peer.
    pub remote_identity_key: [u8; 32],
    /// The X25519 key of the peer.
    pub remote_encryption_key: [u8; 32],
    /// Identifies the session.
    pub session_id: [u8; 16],
    /// The session key, known after the first handshake.
    pub derived_key: Option<DerivedKey>,
    /// Identifies the link on the wire.
    pub transport_id: [u8; 16],
    pub state: SuspendableState,
    pub config: LinkConfig,
    /// Received messages.
    pub inbound: Vec<Vec<u8>>,
    /// Messages to send once the link is active.
    pub held_outbound: Vec<Vec<u8>>,
    /// Whether suspended sessions are recorded.
    pub persistent: bool,
    /// The record of the last suspended session.
    pub stored: Option<Vec<u8>>,
}

/// The key of a session between an identity and a peer.
pub open spec fn session_key(keys: Keys, peer: Seq<u8>) -> Seq<u8> {
    crypto::derived(primitives::x25519_shared(keys.encryption@, peer), None)
}

/// The bytes of an optional session key.
pub open spec fn key_bytes(k: Option<DerivedKey>) -> Seq<u8> {
    match k {
        Some(d) => d.key@,
        None => Seq::empty(),
    }
}

impl SuspendableLink {
    /// The session that the stored record describes.
    pub open spec fn stored_session(&self) -> Option<codec::SessionFields> {
        match self.stored {
            Some(b) => codec::session_fields(b@),
            None => None,
        }
    }

    /// How many times the stored session was suspended.
    pub open spec fn stored_count(&self) -> nat {
        match self.stored_session() {
            Some(s) => s.resume_count,
            None => 0,
        }
    }

    /// A closed link without storage.
    pub fn new(
        local: Destination,
        remote_rns: RnsAddress,
        remote_identity_key: [u8; 32],
        remote_encryption_key: [u8; 32],
    ) -> (l: Self)
        ensures
            l.local == local,
            l.remote_rns == remote_rns,
            l.remote_identity_key == remote_identity_key,
            l.remote_encryption_key == remote_encryption_key,
            l.session_id@ == primitives::sha256_digest(
                rns_address::rns_hash(local.keys.identity()) + remote_rns@,
            ).subrange(0, 16),
            l.derived_key is None,
            l.transport_id@ == link::xor_16(
                rns_address::rns_hash(local.keys.identity()),
                remote_rns@,
            ),
            l.state == SuspendableState::Closed,
            l.config == (LinkConfig { mtu: 500, max_retries: 3, handshake_timeout_ms: 30_000 }),
            l.inbound@.len() == 0,
            l.held_outbound@.len() == 0,
            !l.persistent,
            l.stored is None,
    {
        let transport_id: [u8; 16] = SuspendableLink::derive_transport_id(&local, &remote_rns);
        let session_id: [u8; 16] = SuspendableLink::derive_session_id(&local, &remote_rns);
        SuspendableLink {
            local,
            remote_rns,
            remote_identity_key,
            remote_encryption_key,
            session_id,
            derived_key: None,
            transport_id,
            state: SuspendableState::Closed,
            config: LinkConfig::default(),
            inbound: Vec::new(),
            held_outbound: Vec::new(),
            persistent: false,
            stored: None,
        }
    }

    /// A link with the given configuration and storage. Where the storage holds the record
    /// of a session, the link is suspended and holds the messages of that session;
    /// otherwise it is closed. Without storage no record is kept.
    pub fn with_config_and_storage(
        local: Destination,
        remote_rns: RnsAddress,
        remote_identity_key: [u8; 32],
        remote_encryption_key: [u8; 32],
        config: LinkConfig,
        storage: Storage,
    ) -> (l: Self)
        ensures
            l.local == local,
            l.remote_rns == remote_rns,
            l.remote_identity_key == remote_identity_key,
            l.remote_encryption_key == remote_encryption_key,
            l.session_id@ == primitives::sha256_digest(
                rns_address::rns_hash(local.keys.identity()) + remote_rns@,
            ).subrange(0, 16),
            l.derived_key is None,
            l.transport_id@ == link::xor_16(
                rns_address::rns_hash(local.keys.identity()),
                remote_rns@,
            ),
            l.config == config,
            l.inbound@.len() == 0,
            l.persistent == (storage is Present),
            l.stored == (match storage {
                Storage::Absent => None,
                Storage::Present(record) => record,
            }),
            (match l.stored_session() {
                Some(s) => l.state == SuspendableState::Suspended && wire::all_bytes(
                    l.held_outbound@,
                ) == s.held_messages,
                None => l.state == SuspendableState::Closed && l.held_outbound@.len() == 0,
            }),
    {
        let transport_id: [u8; 16] = SuspendableLink::derive_transport_id(&local, &remote_rns);
        let session_id: [u8; 16] = SuspendableLink::derive_session_id(&local, &remote_rns);
        let mut state: SuspendableState = SuspendableState::Closed;
        let mut held_outbound: Vec<Vec<u8>> = Vec::new();
        let (persistent, stored): (bool, Option<Vec<u8>>) = match storage {
            Storage::Absent => (false, None),
            Storage::Present(record) => (true, record),
        };
        if let Some(bytes) = &stored {
            if let Ok(session) = SuspendedSession::from_bytes(bytes.as_slice()) {
                state = SuspendableState::Suspended;
                held_outbound = session.held_messages;
            }
        }
        SuspendableLink {
            local,
            remote_rns,
            remote_identity_key,
            remote_encryption_key,
            session_id,
            derived_key: None,
            transport_id,
            state,
            config,
            inbound: Vec::new(),
            held_outbound,
            persistent,
            stored,
        }
    }

    /// The state.
    pub fn state(&self) -> (s: SuspendableState)
        ensures
            s == self.state,
    {
        self.state
    }

    /// Whether the link is active.
    pub fn is_active(&self) -> (r: bool)
        ensures
            r <==> self.state == SuspendableState::Active,
    {
        self.state == SuspendableState::Active
    }

    /// Whether the link is suspended.
    pub fn is_suspended(&self) -> (r: bool)
        ensures
            r <==> self.state == SuspendableState::Suspended,
    {
        self.state == SuspendableState::Suspended
    }

    /// The local destination.
    pub fn local(&self) -> (d: &Destination)
        ensures
            *d == self.local,
    {
        &self.local
    }

    /// The address of the peer.
    pub fn remote(&self) -> (a: &RnsAddress)
        ensures
            *a == self.remote_rns,
    {
        &self.remote_rns
    }

    /// The transport id.
    pub fn transport_id(&self) -> (id: &[u8; 16])
        ensures
            *id == self.transport_id,
    {
        &self.transport_id
    }

    /// The session id.
    pub fn session_id(&self) -> (id: &[u8; 16])
        ensures
            *id == self.session_id,
    {
        &self.session_id
    }

    /// How many messages are held.
    pub fn held_count(&self) -> (n: usize)
        ensures
            n == self.held_outbound@.len(),
    {
        self.held_outbound.len()
    }

    /// How many messages wait to be received.
    pub fn pending_inbound(&self) -> (n: usize)
        ensures
            n == self.inbound@.len(),
    {
        self.inbound.len()
    }

    /// The configuration.
    pub fn config(&self) -> (c: &LinkConfig)
        ensures
            *c == self.config,
    {
        &self.config
    }

    /// How many times the stored session was suspended; 0 without a record.
    pub fn resume_count(&self) -> (n: u32)
        ensures
            n == self.stored_count(),
    {
        if let Some(bytes) = &self.stored {
            if let Ok(session) = SuspendedSession::from_bytes(bytes.as_slice()) {
                return session.resume_count;
            }
        }
        0
    }

    /// Begins the handshake, and returns the proof to send. An active link refuses.
    pub fn establish(&mut self) -> (r: Result<Packet, TransportError>)
        ensures
            (match r {
                Ok(p) => old(self).state != SuspendableState::Active && *final(self) == (
                SuspendableLink { state: SuspendableState::Handshaking, ..*old(self) }) && p@
                    == link::on_link(
                    old(self).remote_rns@,
                    old(self).transport_id@,
                    packet::PROOF,
                    packet::FLAG_SET,
                    packet::LINKPROOF,
                    primitives::sha256_digest(old(self).transport_id@)
                        + primitives::ed25519_signature(
                        old(self).local.keys.signing@,
                        old(self).transport_id@,
                    ),
                ) && link::proof_outcome(
                    old(self).local.keys.identity(),
                    old(self).transport_id@,
                    p@.data,
                ) is None,
                Err(e) => old(self).state == SuspendableState::Active && *final(self) == *old(self)
                    && e == TransportError::LinkAlreadyEstablished,
            }),
    {
        match self.state {
            SuspendableState::Active => Err(TransportError::LinkAlreadyEstablished),
            _ => {
                self.state = SuspendableState::Handshaking;
                let p: Proof = proofs::generate_proof(
                    self.local.keys(),
                    self.transport_id.as_slice(),
                );
                proof {
                    link::law_own_proof_accepted(self.local.keys.identity(), self.transport_id@, p);
                }
                Ok(
                    link::link_packet(
                        &self.remote_rns,
                        &self.transport_id,
                        packet::PROOF,
                        packet::FLAG_SET,
                        packet::LINKPROOF,
                        p.to_bytes(),
                    ),
                )
            },
        }
    }

    /// Completes the handshake with the proof of the peer, and derives the session key.
    pub fn complete_handshake(&mut self, proof_bytes: &[u8]) -> (r: Result<(), TransportError>)
        ensures
            (match old(self).state {
                SuspendableState::Closed => r == Err::<(), TransportError>(
                    TransportError::LinkNotEstablished,
                ) && *final(self) == *old(self),
                SuspendableState::Active => r == Err::<(), TransportError>(
                    TransportError::LinkAlreadyEstablished,
                ) && *final(self) == *old(self),
                SuspendableState::Suspended => (r matches Err(e) && e@ == TransportFault::Other(
                    "call resume() first to re-enter Handshaking"@,
                )) && *final(self) == *old(self),
                SuspendableState::Handshaking => match link::proof_outcome(
                    old(self).remote_identity_key@,
                    old(self).transport_id@,
                    proof_bytes@,
                ) {
                    None => r == Ok::<(), TransportError>(()) && *final(self) == (
                    SuspendableLink {
                        state: SuspendableState::Active,
                        derived_key: final(self).derived_key,
                        ..*old(self)
                    }) && (final(self).derived_key matches Some(k) && k.key@ == session_key(
                        old(self).local.keys,
                        old(self).remote_encryption_key@,
                    ) && forall|peer: Keys|
                        old(self).remote_encryption_key@ == #[trigger] peer.exchange() ==> k.key@
                            == session_key(peer, old(self).local.keys.exchange())),
                    Some(f) => (r matches Err(e) && e@ == f) && *final(self) == *old(self),
                },
            }),
    {
        match self.state {
            SuspendableState::Closed => Err(TransportError::LinkNotEstablished),
            SuspendableState::Active => Err(TransportError::LinkAlreadyEstablished),
            SuspendableState::Suspended => Err(
                TransportError::Other("call resume() first to re-enter Handshaking".to_owned()),
            ),
            SuspendableState::Handshaking => {
                match link::check_proof(
                    &self.remote_identity_key,
                    &self.transport_id,
                    proof_bytes,
                ) {
                    Ok(_) => {
                        self.derived_key = Some(
                            DerivedKey::from_static(
                                self.local.keys().encryption_secret(),
                                &self.remote_encryption_key,
                            ),
                        );
                        self.state = SuspendableState::Active;
                        Ok(())
                    },
                    Err(e) => Err(e),
                }
            },
        }
    }

    /// The session as it is suspended at the time `now`.
    pub open spec fn session_at(&self, now: u64) -> codec::SessionFields {
        codec::SessionFields {
            session_id: self.session_id@,
            remote_rns: self.remote_rns@,
            local_rns: rns_address::rns_hash(self.local.keys.identity()),
            remote_identity_key: self.remote_identity_key@,
            remote_encryption_key: self.remote_encryption_key@,
            derived_key_bytes: key_bytes(self.derived_key),
            held_messages: wire::all_bytes(self.held_outbound@),
            suspended_at: now as nat,
            resume_count: self.stored_count() + 1,
        }
    }

    /// The session as it is suspended at the time `now`.
    pub fn session(&self, now: u64) -> (s: SuspendedSession)
        requires
            self.stored_count() < u32::MAX,
        ensures
            s@ == self.session_at(now),
    {
        let derived_key_bytes: Vec<u8> = match &self.derived_key {
            Some(k) => wire::copy_all(k.as_bytes().as_slice()),
            None => Vec::new(),
        };
        assert(derived_key_bytes@ =~= key_bytes(self.derived_key));
        SuspendedSession {
            session_id: wire::copy_all(self.session_id.as_slice()),
            remote_rns: self.remote_rns.to_vec(),
            local_rns: self.local.keys().rns_address().to_vec(),
            remote_identity_key: wire::copy_all(self.remote_identity_key.as_slice()),
            remote_encryption_key: wire::copy_all(self.remote_encryption_key.as_slice()),
            derived_key_bytes,
            held_messages: copy_messages(&self.held_outbound),
            suspended_at: now,
            resume_count: self.resume_count() + 1,
        }
    }

    /// Enters the suspended state at the time `now`, and records the session where the
    /// link has storage.
    fn enter_suspended(&mut self, now: u64)
        requires
            old(self).stored_count() < u32::MAX,
        ensures
            suspended_from(*old(self), *final(self), now),
    {
        if self.persistent {
            let session: SuspendedSession = self.session(now);
            proof {
                law_session_roundtrip(session);
            }
            self.stored = Some(session.to_bytes());
        }
        self.state = SuspendableState::Suspended;
    }

    /// Suspends an active link now. The session key and the held messages are kept.
    pub fn suspend(&mut self) -> (r: Result<(), TransportError>)
        requires
            old(self).state == SuspendableState::Active ==> old(self).stored_count() < u32::MAX,
        ensures
            (match old(self).state {
                SuspendableState::Active => r == Ok::<(), TransportError>(()) && exists|now: u64|
                    #[trigger] suspended_from(*old(self), *final(self), now),
                SuspendableState::Suspended => (r matches Err(e) && e@ == TransportFault::Other(
                    "link is already suspended"@,
                )) && *final(self) == *old(self),
                _ => r == Err::<(), TransportError>(TransportError::LinkNotEstablished)
                    && *final(self) == *old(self),
            }),
    {
        let now: u64 = clock::unix_secs();
        let r: Result<(), TransportError> = self.suspend_at(now);
        assert(old(self).state == SuspendableState::Active ==> suspended_from(
            *old(self),
            *self,
            now,
        ));
        r
    }

    /// Suspends an active link at the given time.
    pub fn suspend_at(&mut self, now: u64) -> (r: Result<(), TransportError>)
        requires
            old(self).state == SuspendableState::Active ==> old(self).stored_count() < u32::MAX,
        ensures
            (match old(self).state {
                SuspendableState::Active => r == Ok::<(), TransportError>(()) && suspended_from(
                    *old(self),
                    *final(self),
                    now,
                ),
                SuspendableState::Suspended => (r matches Err(e) && e@ == TransportFault::Other(
                    "link is already suspended"@,
                )) && *final(self) == *old(self),
                _ => r == Err::<(), TransportError>(TransportError::LinkNotEstablished)
                    && *final(self) == *old(self),
            }),
    {
        match self.state {
            SuspendableState::Active => {
                self.enter_suspended(now);
                Ok(())
            },
            SuspendableState::Suspended => Err(
                TransportError::Other("link is already suspended".to_owned()),
            ),
            _ => Err(TransportError::LinkNotEstablished),
        }
    }

    /// Resumes a suspended link, which then has to re-verify its peer. The session key
    /// is kept, or derived anew where it is not in memory; held messages are kept. A
    /// stored record that cannot be read is an error.
    pub fn resume(&mut self) -> (r: Result<(), TransportError>)
        ensures
            (if old(self).state != SuspendableState::Suspended {
                (r matches Err(e) && e@ == TransportFault::Other(
                    "link must be Suspended to resume"@,
                )) && *final(self) == *old(self)
            } else if old(self).stored is Some && old(self).stored_session() is None {
                (r matches Err(TransportError::Other(m)) && "session deserialize: "@.is_prefix_of(
                    m@,
                ) && (codec::wide() ==> m@ == "session deserialize: "@ + codec::session_complaint(
                    old(self).stored->0@,
                ))) && *final(self) == *old(self)
            } else {
                &&& r == Ok::<(), TransportError>(())
                &&& *final(self) == (SuspendableLink {
                    state: SuspendableState::Handshaking,
                    transport_id: final(self).transport_id,
                    derived_key: final(self).derived_key,
                    ..*old(self)
                })
                &&& final(self).transport_id@ == link::xor_16(
                    rns_address::rns_hash(old(self).local.keys.identity()),
                    old(self).remote_rns@,
                )
                &&& (match old(self).derived_key {
                    Some(k) => final(self).derived_key == Some(k),
                    None => match old(self).stored_session() {
                        Some(s) if s.derived_key_bytes.len() > 0 => final(
                            self).derived_key matches Some(k) && k.key@ == session_key(
                            old(self).local.keys,
                            old(self).remote_encryption_key@,
                        ),
                        _ => final(self).derived_key is None,
                    },
                })
            }),
    {
        if self.state != SuspendableState::Suspended {
            return Err(TransportError::Other("link must be Suspended to resume".to_owned()));
        }
        let mut derive: bool = false;
        if let Some(bytes) = &self.stored {
            match SuspendedSession::from_bytes(bytes.as_slice()) {
                Ok(session) => {
                    derive = self.derived_key.is_none() && session.derived_key_bytes.len() > 0;
                },
                Err(e) => {
                    return Err(TransportError::Other(text::join("session deserialize: ", e.as_str())));
                },
            }
        }
        if derive {
            self.derived_key = Some(
                DerivedKey::from_static(
                    self.local.keys().encryption_secret(),
                    &self.remote_encryption_key,
                ),
            );
        }
        self.transport_id = SuspendableLink::derive_transport_id(&self.local, &self.remote_rns);
        self.state = SuspendableState::Handshaking;
        Ok(())
    }

    /// Suspends the link after a disconnect now, also during a handshake. A link that
    /// is closed or suspended stays as it is.
    pub fn handle_disconnect(&mut self) -> (r: Result<(), TransportError>)
        requires
            (old(self).state == SuspendableState::Active || old(self).state
                == SuspendableState::Handshaking) ==> old(self).stored_count() < u32::MAX,
        ensures
            r == Ok::<(), TransportError>(()),
            (match old(self).state {
                SuspendableState::Active | SuspendableState::Handshaking => exists|now: u64|
                    #[trigger] suspended_from(*old(self), *final(self), now),
                _ => *final(self) == *old(self),
            }),
    {
        let now: u64 = clock::unix_secs();
        self.handle_disconnect_at(now);
        assert(old(self).state == SuspendableState::Active || old(self).state
            == SuspendableState::Handshaking ==> suspended_from(*old(self), *self, now));
        Ok(())
    }

    /// Suspends the link after a disconnect at the given time.
    pub fn handle_disconnect_at(&mut self, now: u64)
        requires
            (old(self).state == SuspendableState::Active || old(self).state
                == SuspendableState::Handshaking) ==> old(self).stored_count() < u32::MAX,
        ensures
            (match old(self).state {
                SuspendableState::Active | SuspendableState::Handshaking => suspended_from(
                    *old(self),
                    *final(self),
                    now,
                ),
                _ => *final(self) == *old(self),
            }),
    {
        match self.state {
            SuspendableState::Active | SuspendableState::Handshaking => {
                self.enter_suspended(now);
            },
            _ => {},
        }
    }

    /// Closes the link for good: messages, the session key and the stored record are
    /// dropped.
    pub fn close(&mut self) -> (r: Result<(), TransportError>)
        ensures
            r == Ok::<(), TransportError>(()),
            *final(self) == (SuspendableLink {
                state: SuspendableState::Closed,
                derived_key: None,
                stored: None,
                inbound: final(self).inbound,
                held_outbound: final(self).held_outbound,
                ..*old(self)
            }),
            final(self).inbound@.len() == 0,
            final(self).held_outbound@.len() == 0,
    {
        self.state = SuspendableState::Closed;
        self.inbound.clear();
        self.held_outbound.clear();
        self.derived_key = None;
        self.stored = None;
        Ok(())
    }

    /// Whether a packet carries `data`, encrypted for the peer.
    pub open spec fn carries(&self, p: PacketModel, data: Seq<u8>) -> bool {
        &&& exists|ephemeral: Seq<u8>, iv: Seq<u8>|
            ephemeral.len() == 32 && iv.len() == 16 && p == link::on_link(
                self.remote_rns@,
                self.transport_id@,
                packet::DATA,
                packet::FLAG_UNSET,
                packet::NONE,
                #[trigger] crypto::boxed(
                    ephemeral,
                    self.remote_encryption_key@,
                    self.remote_rns@,
                    iv,
                    data,
                ),
            )
        &&& forall|secret: Seq<u8>|
            secret.len() == 32 && self.remote_encryption_key@ == #[trigger] primitives::x25519_public(
                secret,
            ) ==> crypto::unboxed(secret, self.remote_rns@, p.data) == Ok::<
                Seq<u8>,
                crypto::CryptoFault,
            >(data)
    }

    /// Sends data: an active link returns the encrypted packet; a link that is
    /// suspended or in a handshake holds the message.
    pub fn send(&mut self, data: Vec<u8>) -> (r: Result<Option<Packet>, TransportError>)
        ensures
            (match old(self).state {
                SuspendableState::Active => *final(self) == *old(self) && (if 80
                    + primitives::padded_len(data@.len()) > old(self).config.mtu {
                    r matches Err(TransportError::InvalidChunkSize(n)) && n == 80
                        + primitives::padded_len(data@.len())
                } else {
                    r matches Ok(Some(p)) && old(self).carries(p@, data@)
                }),
                SuspendableState::Suspended | SuspendableState::Handshaking => r == Ok::<
                    Option<Packet>,
                    TransportError,
                >(None) && *final(self) == (SuspendableLink {
                    held_outbound: final(self).held_outbound,
                    ..*old(self)
                }) && final(self).held_outbound@ == old(self).held_outbound@.push(data),
                SuspendableState::Closed => r == Err::<Option<Packet>, TransportError>(
                    TransportError::LinkNotEstablished,
                ) && *final(self) == *old(self),
            }),
    {
        match self.state {
            SuspendableState::Active => {
                let ephemeral: [u8; 32] = primitives::random_32();
                let iv: [u8; 16] = primitives::os_random_16();
                match self.seal(data.as_slice(), &ephemeral, &iv) {
                    Ok(p) => Ok(Some(p)),
                    Err(e) => Err(e),
                }
            },
            SuspendableState::Closed => Err(TransportError::LinkNotEstablished),
            _ => {
                self.held_outbound.push(data);
                Ok(None)
            },
        }
    }

    /// The packet that carries `data`, with the given ephemeral secret and IV, where it
    /// fits the MTU.
    pub fn seal(&self, data: &[u8], ephemeral: &[u8; 32], iv: &[u8; 16]) -> (r: Result<
        Packet,
        TransportError,
    >)
        ensures
            (if 80 + primitives::padded_len(data@.len()) > self.config.mtu {
                r matches Err(TransportError::InvalidChunkSize(n)) && n == 80
                    + primitives::padded_len(data@.len())
            } else {
                r matches Ok(p) && self.carries(p@, data@) && p@ == link::on_link(
                    self.remote_rns@,
                    self.transport_id@,
                    packet::DATA,
                    packet::FLAG_UNSET,
                    packet::NONE,
                    crypto::boxed(
                        ephemeral@,
                        self.remote_encryption_key@,
                        self.remote_rns@,
                        iv@,
                        data@,
                    ),
                )
            }),
    {
        let payload: Vec<u8> = Keys::encrypt_for_with(
            &self.remote_encryption_key,
            self.remote_rns.as_bytes(),
            data,
            ephemeral,
            iv,
        );
        if payload.len() > self.config.mtu as usize {
            return Err(TransportError::InvalidChunkSize(payload.len()));
        }
        Ok(
            link::link_packet(
                &self.remote_rns,
                &self.transport_id,
                packet::DATA,
                packet::FLAG_UNSET,
                packet::NONE,
                payload,
            ),
        )
    }

    /// Whether a message fits a packet of this link.
    pub open spec fn sendable(&self, data: Seq<u8>) -> bool {
        80 + primitives::padded_len(data.len()) <= self.config.mtu
    }

    /// Sends all held messages of an active link, in order; none is held any more. The
    /// first message that does not fit is an error.
    pub fn replay_held(&mut self) -> (r: Result<Vec<Packet>, TransportError>)
        ensures
            (if old(self).state != SuspendableState::Active {
                r == Err::<Vec<Packet>, TransportError>(TransportError::LinkNotEstablished)
                    && *final(self) == *old(self)
            } else {
                &&& *final(self) == (SuspendableLink {
                    held_outbound: final(self).held_outbound,
                    ..*old(self)
                })
                &&& final(self).held_outbound@.len() == 0
                &&& (match r {
                    Ok(packets) => packets@.len() == old(self).held_outbound@.len() && (forall|
                        i: int,
                    |
                        0 <= i < packets@.len() ==> old(self).carries(
                            (#[trigger] packets@[i])@,
                            old(self).held_outbound@[i]@,
                        )) && (forall|i: int|
                        0 <= i < old(self).held_outbound@.len() ==> old(self).sendable(
                            (#[trigger] old(self).held_outbound@[i])@,
                        )),
                    Err(e) => exists|i: int|
                        0 <= i < old(self).held_outbound@.len() && !old(self).sendable(
                            (#[trigger] old(self).held_outbound@[i])@,
                        ) && (forall|j: int|
                            0 <= j < i ==> old(self).sendable(
                                (#[trigger] old(self).held_outbound@[j])@,
                            )) && (e matches TransportError::InvalidChunkSize(n) && n == 80
                            + primitives::padded_len(old(self).held_outbound@[i]@.len())),
                })
            }),
    {
        if self.state != SuspendableState::Active {
            return Err(TransportError::LinkNotEstablished);
        }
        let mut held: Vec<Vec<u8>> = Vec::new();
        held.append(&mut self.held_outbound);
        assert(held@ =~= old(self).held_outbound@);
        let mut packets: Vec<Packet> = Vec::new();
        let mut i: usize = 0;
        while i < held.len()
            invariant
                i <= held@.len(),
                held@ == old(self).held_outbound@,
                old(self).state == SuspendableState::Active,
                *self == (SuspendableLink { held_outbound: self.held_outbound, ..*old(self) }),
                self.held_outbound@.len() == 0,
                packets@.len() == i,
                forall|j: int|
                    0 <= j < i ==> old(self).carries((#[trigger] packets@[j])@, held@[j]@),
                forall|j: int| 0 <= j < i ==> old(self).sendable((#[trigger] held@[j])@),
            decreases held@.len() - i,
        {
            let data: Vec<u8> = wire::copy_all(held[i].as_slice());
            let ghost before = *self;
            match self.send(data) {
                Ok(Some(p)) => {
                    assert(before.carries(p@, held@[i as int]@));
                    assert(old(self).carries(p@, held@[i as int]@));
                    packets.push(p);
                },
                Ok(None) => {},
                Err(e) => {
                    assert(!old(self).sendable(old(self).held_outbound@[i as int]@));
                    return Err(e);
                },
            }
            i = i + 1;
        }
        Ok(packets)
    }

    /// What a packet brings: the message, or what is wrong with it.
    pub open spec fn delivered(&self, p: PacketModel) -> Result<Seq<u8>, TransportFault> {
        if self.state != SuspendableState::Active {
            Err(TransportFault::LinkNotEstablished)
        } else if p.transport_id != Some(self.transport_id@) {
            Err(TransportFault::Other("transport ID mismatch"@))
        } else {
            link::decrypted(self.local.keys, p.data)
        }
    }

    /// Takes in a packet of this link; its message can then be received.
    pub fn deliver(&mut self, packet: &Packet) -> (r: Result<(), TransportError>)
        ensures
            (match old(self).delivered(packet@) {
                Ok(m) => r == Ok::<(), TransportError>(()) && *final(self) == (SuspendableLink {
                    inbound: final(self).inbound,
                    ..*old(self)
                }) && wire::all_bytes(final(self).inbound@) == wire::all_bytes(
                    old(self).inbound@,
                ).push(m),
                Err(f) => (r matches Err(e) && e@ == f) && *final(self) == *old(self),
            }),
    {
        if self.state != SuspendableState::Active {
            return Err(TransportError::LinkNotEstablished);
        }
        if !link::same_id(&packet.transport_id, &self.transport_id) {
            return Err(TransportError::Other("transport ID mismatch".to_owned()));
        }
        match link::decrypt(self.local.keys(), packet.data.as_slice()) {
            Ok(m) => {
                self.inbound.push(m);
                assert(wire::all_bytes(self.inbound@) =~= wire::all_bytes(
                    old(self).inbound@,
                ).push(m@));
                Ok(())
            },
            Err(e) => Err(e),
        }
    }

    /// The oldest received message, if there is one.
    pub fn recv(&mut self) -> (m: Option<Vec<u8>>)
        ensures
            (match m {
                Some(b) => old(self).inbound@.len() > 0 && b == old(self).inbound@[0] && *final(self)
                    == (SuspendableLink { inbound: final(self).inbound, ..*old(self) }) && final(
                    self).inbound@ == old(self).inbound@.subrange(
                    1,
                    old(self).inbound@.len() as int,
                ),
                None => old(self).inbound@.len() == 0 && *final(self) == *old(self),
            }),
    {
        if self.inbound.len() == 0 {
            None
        } else {
            let m: Vec<u8> = self.inbound.remove(0);
            assert(self.inbound@ =~= old(self).inbound@.subrange(
                1,
                old(self).inbound@.len() as int,
            ));
            Some(m)
        }
    }

    /// Combines the addresses of both identities into the transport id.
    fn derive_transport_id(local: &Destination, remote: &RnsAddress) -> (id: [u8; 16])
        ensures
            id@ == link::xor_16(rns_address::rns_hash(local.keys.identity()), remote@),
    {
        let own: RnsAddress = local.keys().rns_address();
        link::combine_16(own.as_bytes(), remote.as_bytes())
    }

    /// Derives the session id from the addresses of both identities.
    fn derive_session_id(local: &Destination, remote: &RnsAddress) -> (id: [u8; 16])
        ensures
            id@ == primitives::sha256_digest(
                rns_address::rns_hash(local.keys.identity()) + remote@,
            ).subrange(0, 16),
    {
        let own: RnsAddress = local.keys().rns_address();
        let mut both: Vec<u8> = own.to_vec();
        wire::push_all(&mut both, remote.as_bytes().as_slice());
        let digest: [u8; 32] = primitives::sha256(both.as_slice());
        wire::read_16(digest.as_slice(), 0)
    }
}

/// Whether `after` is `before`, suspended at the time `now`: everything is kept, and a
/// link with storage has recorded the session.
pub open spec fn suspended_from(before: SuspendableLink, after: SuspendableLink, now: u64) -> bool {
    &&& after == SuspendableLink {
        state: SuspendableState::Suspended,
        stored: after.stored,
        ..before
    }
    &&& (if before.persistent {
        &&& after.stored matches Some(b)
        &&& b@ == codec::session_record(before.session_at(now))
        &&& codec::session_fields(b@) == Some(before.session_at(now))
    } else {
        after.stored == before.stored
    })
}

/// A link with storage that was suspended leaves a record from which the session can
/// be resumed: it holds the same messages and the same keys.
pub proof fn law_suspended_session_survives(
    before: SuspendableLink,
    after: SuspendableLink,
    now: u64,
)
    requires
        before.persistent,
        suspended_from(before, after, now),
    ensures
        after.stored_session() == Some(before.session_at(now)),
        after.stored_session()->0.held_messages == wire::all_bytes(before.held_outbound@),
        after.stored_session()->0.derived_key_bytes == key_bytes(before.derived_key),
        after.stored_count() == before.stored_count() + 1,
{
}

/// A link that is made with the record of a suspended one takes its session over: it
/// holds the same messages, and a handshake gives it the same session key.
pub proof fn law_session_taken_over(
    before: SuspendableLink,
    after: SuspendableLink,
    now: u64,
    reopened: SuspendableLink,
)
    requires
        before.persistent,
        suspended_from(before, after, now),
        reopened.stored == after.stored,
        reopened.stored_session() matches Some(s) ==> wire::all_bytes(reopened.held_outbound@)
            == s.held_messages,
        reopened.local.keys == before.local.keys,
        reopened.remote_encryption_key == before.remote_encryption_key,
    ensures
        wire::all_bytes(reopened.held_outbound@) == wire::all_bytes(before.held_outbound@),
        reopened.stored_session() == Some(before.session_at(now)),
        reopened.stored_count() == before.stored_count() + 1,
        session_key(reopened.local.keys, reopened.remote_encryption_key@) == session_key(
            before.local.keys,
            before.remote_encryption_key@,
        ),
{
}

/// The other end of a link receives what an active link sends, where the sender
/// encrypts for the keys and the address of the receiver.
pub proof fn law_active_link_delivers(
    sender: SuspendableLink,
    receiver: SuspendableLink,
    p: PacketModel,
    data: Seq<u8>,
)
    requires
        sender.carries(p, data),
        receiver.state == SuspendableState::Active,
        sender.transport_id@ == receiver.transport_id@,
        sender.remote_encryption_key@ == receiver.local.keys.exchange(),
        sender.remote_rns@ == rns_address::rns_hash(receiver.local.keys.identity()),
    ensures
        receiver.delivered(p) == Ok::<Seq<u8>, TransportFault>(data),
{
    let secret = receiver.local.keys.encryption@;
    assert(secret.len() == 32);
    assert(receiver.local.keys.exchange() == primitives::x25519_public(secret));
}

/// A new link has the ids that its two addresses make, whichever of them they are reckoned
/// from in the transport id; it is closed and empty.
pub proof fn law_new_link(
    local: Destination,
    remote: RnsAddress,
    identity_key: [u8; 32],
    encryption_key: [u8; 32],
    l: SuspendableLink,
)
    requires
        call_ensures(SuspendableLink::new, (local, remote, identity_key, encryption_key), l),
    ensures
        ({
            let own = primitives::sha256_digest(local.keys.identity()).subrange(0, 16);
            &&& l.session_id@ == primitives::sha256_digest(own + remote@).subrange(0, 16)
            &&& l.transport_id@ == link::xor_16(own, remote@)
            &&& l.transport_id@ == link::xor_16(remote@, own)
        }),
        l.state == SuspendableState::Closed,
        l.remote_rns == remote,
        l.remote_identity_key == identity_key,
        l.remote_encryption_key == encryption_key,
        l.inbound@.len() == 0 && l.held_outbound@.len() == 0 && l.derived_key is None,
{
    link::law_transport_id_symmetric(
        rns_address::rns_hash(local.keys.identity()),
        remote@,
    );
}

/// What is sent while a link is suspended, or shakes hands, is held behind what is held
/// already. Sent on an active link, it goes out at once, and nothing is held; on a closed
/// link it is refused.
pub proof fn law_suspended_link_holds(
    l: &mut SuspendableLink,
    data: Vec<u8>,
    r: Result<Option<Packet>, TransportError>,
)
    requires
        call_ensures(SuspendableLink::send, (l, data), r),
    ensures
        old(l).state == SuspendableState::Suspended || old(l).state
            == SuspendableState::Handshaking ==> r == Ok::<Option<Packet>, TransportError>(None)
            && final(l).held_outbound@.len() == old(l).held_outbound@.len() + 1 && final(l).held_outbound@.last() == data && (forall|i: int|
            0 <= i < old(l).held_outbound@.len() ==> final(l).held_outbound@[i] == (
            #[trigger] old(l).held_outbound@[i])) && final(l).state == old(l).state,
        old(l).state == SuspendableState::Active ==> *final(l) == *old(l) && !(r matches Ok(None)),
        old(l).state == SuspendableState::Closed ==> r is Err && *final(l) == *old(l),
{
}

/// The messages that an active link holds are all sent when they are replayed, in the order
/// in which they were held, and the other end receives each of them; none is held then.
pub proof fn law_held_messages_arrive(
    l: &mut SuspendableLink,
    packets: Vec<Packet>,
    receiver: SuspendableLink,
)
    requires
        call_ensures(SuspendableLink::replay_held, (l,), Ok(packets)),
        receiver.state == SuspendableState::Active,
        old(l).transport_id@ == receiver.transport_id@,
        old(l).remote_encryption_key@ == receiver.local.keys.exchange(),
        old(l).remote_rns@ == rns_address::rns_hash(receiver.local.keys.identity()),
    ensures
        old(l).state == SuspendableState::Active,
        packets@.len() == old(l).held_outbound@.len(),
        forall|i: int|
            0 <= i < packets@.len() ==> receiver.delivered((#[trigger] packets@[i])@) == Ok::<
                Seq<u8>,
                TransportFault,
            >(old(l).held_outbound@[i]@),
        final(l).held_outbound@.len() == 0,
        final(l).state == SuspendableState::Active,
{
    assert forall|i: int| 0 <= i < packets@.len() implies receiver.delivered(
        (#[trigger] packets@[i])@,
    ) == Ok::<Seq<u8>, TransportFault>(l.held_outbound@[i]@) by {
        law_active_link_delivers(*l, receiver, packets@[i]@, l.held_outbound@[i]@);
    }
}

/// What is sent on an active link is received at the other end: it is delivered, and where
/// nothing else waits there, it is what is received next.
pub proof fn law_sent_is_received(
    sender: &mut SuspendableLink,
    data: Vec<u8>,
    p: Packet,
    receiver: &mut SuspendableLink,
    r: Result<(), TransportError>,
    reader: &mut SuspendableLink,
    m: Option<Vec<u8>>,
)
    requires
        old(sender).state == SuspendableState::Active,
        call_ensures(SuspendableLink::send, (sender, data), Ok(Some(p))),
        old(receiver).state == SuspendableState::Active,
        old(sender).transport_id@ == old(receiver).transport_id@,
        old(sender).remote_encryption_key@ == old(receiver).local.keys.exchange(),
        old(sender).remote_rns@ == rns_address::rns_hash(old(receiver).local.keys.identity()),
        call_ensures(SuspendableLink::deliver, (receiver, &p), r),
        old(receiver).inbound@.len() == 0,
        *old(reader) == *final(receiver),
        call_ensures(SuspendableLink::recv, (reader,), m),
    ensures
        r == Ok::<(), TransportError>(()),
        m matches Some(b) && b@ == data@,
        final(reader).inbound@.len() == 0,
{
    law_active_link_delivers(*sender, *receiver, p@, data@);
    assert(wire::all_bytes(receiver.inbound@) =~= Seq::<Seq<u8>>::empty());
    assert(wire::all_bytes(reader.inbound@).len() == 1);
    assert(wire::all_bytes(reader.inbound@)[0] == data@);
}

/// Only a proof of the link's id, by the other end's identity key, makes a link active that
/// shakes hands; it then has a session key, and the other end derives the same one. With
/// any other proof, and in any other state, the link stays as it is.
pub proof fn law_handshake_makes_active(
    l: &mut SuspendableLink,
    bytes: &[u8],
    r: Result<(), TransportError>,
    peer: Keys,
)
    requires
        call_ensures(SuspendableLink::complete_handshake, (l, bytes), r),
        old(l).remote_encryption_key@ == peer.exchange(),
    ensures
        r is Ok <==> {
            &&& old(l).state == SuspendableState::Handshaking
            &&& bytes@.len() == 96
            &&& bytes@.subrange(0, 32) == primitives::sha256_digest(old(l).transport_id@)
            &&& primitives::ed25519_accepts(
                old(l).remote_identity_key@,
                old(l).transport_id@,
                bytes@.subrange(32, 96),
            )
        },
        r is Ok ==> final(l).state == SuspendableState::Active && (final(l).derived_key matches Some(k) && k.key@ == session_key(
            peer,
            old(l).local.keys.exchange(),
        )) && final(l).held_outbound == old(l).held_outbound && final(l).inbound == old(l).inbound,
        r is Err ==> *final(l) == *old(l),
{
}

/// A link that is not active begins a handshake, with a packet to the other end that proves
/// the link's id with the local key. What it holds stays.
pub proof fn law_establish_begins(l: &mut SuspendableLink, r: Result<Packet, TransportError>)
    requires
        call_ensures(SuspendableLink::establish, (l,), r),
    ensures
        r is Ok <==> old(l).state != SuspendableState::Active,
        r is Err ==> *final(l) == *old(l),
        r matches Ok(p) ==> final(l).state == SuspendableState::Handshaking && final(l).held_outbound == old(l).held_outbound && p.destination_hash@ == old(l).remote_rns@
            && p@.transport_id == Some(old(l).transport_id@) && p.packet_type == 3 && p.context
            == 0xFD && p.data@.len() == 96 && p.data@.subrange(0, 32) == primitives::sha256_digest(
            old(l).transport_id@,
        ) && primitives::ed25519_accepts(
            old(l).local.keys.identity(),
            old(l).transport_id@,
            p.data@.subrange(32, 96),
        ),
{
    if let Ok(p) = r {
        assert(p@.data == p.data@);
        assert(p@.destination_hash == p.destination_hash@);
    }
}

/// An active link that is suspended keeps what it holds and its keys; where it has storage,
/// the record there tells all of it, and that it was suspended once more.
pub proof fn law_suspended_keeps_session(
    l: &mut SuspendableLink,
    now: u64,
    r: Result<(), TransportError>,
)
    requires
        call_ensures(SuspendableLink::suspend_at, (l, now), r),
    ensures
        r is Ok <==> old(l).state == SuspendableState::Active,
        r is Err ==> *final(l) == *old(l),
        r is Ok ==> final(l).state == SuspendableState::Suspended && final(l).held_outbound == old(l).held_outbound && final(l).derived_key == old(l).derived_key && final(l).transport_id
            == old(l).transport_id,
        r is Ok && old(l).persistent ==> (final(l).stored_session() matches Some(s)
            && s.held_messages == wire::all_bytes(old(l).held_outbound@) && s.session_id == old(l).session_id@ && s.remote_rns == old(l).remote_rns@ && s.remote_encryption_key == old(l).remote_encryption_key@ && s.remote_identity_key == old(l).remote_identity_key@
            && s.suspended_at == now && s.resume_count == old(l).stored_count() + 1 && (old(l).derived_key matches Some(k) ==> s.derived_key_bytes == k.key@)),
        r is Ok && !old(l).persistent ==> final(l).stored == old(l).stored,
{
}

/// A lost connection suspends a link that is active or shakes hands, and no other.
pub proof fn law_disconnect_suspends(l: &mut SuspendableLink, now: u64)
    requires
        call_ensures(SuspendableLink::handle_disconnect_at, (l, now), ()),
    ensures
        old(l).state == SuspendableState::Active || old(l).state == SuspendableState::Handshaking
            ==> final(l).state == SuspendableState::Suspended && final(l).held_outbound == old(l).held_outbound,
        old(l).state == SuspendableState::Suspended || old(l).state == SuspendableState::Closed
            ==> *final(l) == *old(l),
        old(l).persistent && (old(l).state == SuspendableState::Active || old(l).state
            == SuspendableState::Handshaking) ==> (final(l).stored_session() matches Some(s)
            && s.held_messages == wire::all_bytes(old(l).held_outbound@)),
{
}

/// A suspended link that is resumed shakes hands again under the id that both addresses
/// make, and still holds what it held. No other link is resumed.
pub proof fn law_resumed_shakes_hands(l: &mut SuspendableLink, r: Result<(), TransportError>)
    requires
        call_ensures(SuspendableLink::resume, (l,), r),
    ensures
        old(l).state != SuspendableState::Suspended ==> r is Err && *final(l) == *old(l),
        old(l).state == SuspendableState::Suspended && (old(l).stored is None || old(l).stored_session() is Some) ==> r is Ok,
        r is Ok ==> final(l).state == SuspendableState::Handshaking && final(l).held_outbound
            == old(l).held_outbound && final(l).transport_id@ == link::xor_16(
            primitives::sha256_digest(old(l).local.keys.identity()).subrange(0, 16),
            old(l).remote_rns@,
        ) && (old(l).derived_key is Some ==> final(l).derived_key == old(l).derived_key),
        r is Err ==> *final(l) == *old(l),
{
}

/// A closed link has nothing left: no messages, no key, no record.
pub proof fn law_closed_link_is_empty(l: &mut SuspendableLink, r: Result<(), TransportError>)
    requires
        call_ensures(SuspendableLink::close, (l,), r),
    ensures
        r is Ok,
        final(l).state == SuspendableState::Closed,
        final(l).inbound@.len() == 0,
        final(l).held_outbound@.len() == 0,
        final(l).derived_key is None,
        final(l).stored is None,
        final(l).remote_rns == old(l).remote_rns,
{
}

/// A link that is made from a stored record is suspended, and holds the messages of the
/// record. Without a record it is closed and holds none.
pub proof fn law_reopened_link(
    local: Destination,
    remote: RnsAddress,
    identity_key: [u8; 32],
    encryption_key: [u8; 32],
    config: LinkConfig,
    record: Vec<u8>,
    s: codec::SessionFields,
    l: SuspendableLink,
)
    requires
        call_ensures(
            SuspendableLink::with_config_and_storage,
            (
                local,
                remote,
                identity_key,
                encryption_key,
                config,
                Storage::Present(Some(record)),
            ),
            l,
        ),
    ensures
        codec::session_fields(record@) == Some(s) ==> l.state == SuspendableState::Suspended
            && wire::all_bytes(l.held_outbound@) == s.held_messages && l.stored_count()
            == s.resume_count,
        codec::session_fields(record@) is None ==> l.state == SuspendableState::Closed
            && l.held_outbound@.len() == 0,
        l.persistent,
        l.stored == Some(record),
{
}

/// A packet on another link, or for a link that is not active, is refused.
pub proof fn law_other_packets_are_refused(
    l: &mut SuspendableLink,
    p: &Packet,
    r: Result<(), TransportError>,
)
    requires
        call_ensures(SuspendableLink::deliver, (l, p), r),
    ensures
        old(l).state != SuspendableState::Active || p@.transport_id != Some(old(l).transport_id@)
            ==> r is Err && *final(l) == *old(l),
        r is Ok ==> final(l).inbound@.len() == old(l).inbound@.len() + 1,
{
    if r is Ok {
        assert(wire::all_bytes(final(l).inbound@).len() == wire::all_bytes(l.inbound@).len() + 1);
    }
}

} // verus!
