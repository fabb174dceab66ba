//! The state of a daemon, and what it does with what comes in.
//!
//! Nothing is sent from here: what is to be sent is returned.

use crate::channel;
use crate::channel::{Channel, ChannelError, SystemMessageType};
use crate::codec;
use crate::crypto::primitives;
use crate::daemon::announce;
use crate::daemon::announce::Announced;
use crate::daemon::error::DaemonError;
use crate::daemon::link_request;
use crate::destination::Destination;
use crate::icn::data;
use crate::icn::data::{Data, DataView};
use crate::icn::face::FaceCapabilities;
use crate::icn::forwarder;
use crate::icn::forwarder::{Forwarder, Recipients, Step, StepView};
use crate::icn::interest;
use crate::icn::interest::{Interest, InterestError, InterestView};
use crate::icn::name::{Name, NameView};
use crate::icn::pit::PitView;
use crate::icn::strategy::BestRoute;
use crate::identity::ratchet_store;
use crate::identity::rns_address;
use crate::identity::{Keys, RnsAddress};
use crate::mesh::routing;
use crate::mesh::MeshRouter;
use crate::packet;
use crate::packet::{Packet, PacketModel};
use crate::span::TimeSpan;
use crate::table;
use crate::table::Table;
use crate::text;
use crate::transport::error;
use crate::transport::link;
use crate::transport::proofs;
use crate::transport::resource;
use crate::transport::resource::{Resource, ResourceConfig, Segment, SegmentModel};
use crate::transport::{Link, LinkConfig, LinkState, Proof, TransportError};
use crate::wire;
use vstd::prelude::*;

verus! {

/// Bytes that are to be sent to a peer.
#[derive(Debug, Clone, PartialEq, Eq)]
pub struct Outgoing {
    pub to: RnsAddress,
    pub bytes: Vec<u8>,
}

/// What comes of a message or a frame that holds content or a request for content.
pub enum Reaction {
    /// There is nothing to do.
    Nothing,
    /// These bytes answer the sender.
    Reply(Vec<u8>),
    /// Data came in, and goes to these faces and waiters.
    Received(Data, Recipients),
    /// The Interest is to be carried on with; a result answers the sender.
    Carry(Interest, Step),
}

/// The daemon.
pub struct Daemon {
    pub keys: Keys,
    pub router: MeshRouter,
    pub forwarder: Forwarder<BestRoute>,
    /// Established links, by the address of the other end.
    pub channels: Table<RnsAddress, Channel>,
    /// Links whose handshake is in progress.
    pub pending_channels: Table<RnsAddress, Channel>,
    /// The Ed25519 keys of known peers.
    pub peer_keys: Table<RnsAddress, [u8; 32]>,
    /// Resources that are being received, by their hash.
    pub incoming_resources: Table<Vec<u8>, Resource>,
    /// Counts the rounds of the daemon.
    pub announce_seq: u64,
}

/// Whether a channel can carry an envelope.
pub open spec fn roomy(m: Map<Seq<u8>, Channel>) -> bool {
    forall|k: Seq<u8>| #[trigger] m.dom().contains(k) ==> m[k].link.config.mtu >= 6
}

/// Whether every resource keeps track of its segments.
pub open spec fn tracked_all(m: Map<Seq<u8>, Resource>) -> bool {
    forall|k: Seq<u8>| #[trigger] m.dom().contains(k) ==> m[k].tracker.wf()
}

/// Whether `i` is the first channel whose link has an identifier.
pub open spec fn first_with_id(entries: Seq<(RnsAddress, Channel)>, id: Seq<u8>, i: int) -> bool {
    &&& 0 <= i < entries.len()
    &&& entries[i].1.link.transport_id@ == id
    &&& forall|j: int| 0 <= j < i ==> (#[trigger] entries[j]).1.link.transport_id@ != id
}

/// Whether some channel's link has an identifier.
pub open spec fn has_id(entries: Seq<(RnsAddress, Channel)>, id: Seq<u8>) -> bool {
    exists|i: int| 0 <= i < entries.len() && (#[trigger] entries[i]).1.link.transport_id@ == id
}

/// The other end of the first channel whose link has an identifier.
fn peer_by_id(channels: &Table<RnsAddress, Channel>, id: &[u8; 16]) -> (r: Option<RnsAddress>)
    ensures
        (match r {
            Some(a) => exists|i: int|
                #[trigger] first_with_id(channels.entries@, id@, i) && a == channels.entries@[i].0,
            None => !has_id(channels.entries@, id@),
        }),
{
    let mut i: usize = 0;
    while i < channels.entries.len()
        invariant
            i <= channels.entries@.len(),
            forall|j: int|
                0 <= j < i ==> (#[trigger] channels.entries@[j]).1.link.transport_id@ != id@,
        decreases channels.entries@.len() - i,
    {
        if wire::same_bytes(channels.entries[i].1.link().transport_id().as_slice(), id.as_slice()) {
            assert(first_with_id(channels.entries@, id@, i as int));
            return Some(channels.entries[i].0);
        }
        i = i + 1;
    }
    None
}

/// A channel with nothing sent or received yet.
pub open spec fn fresh_channel(c: Channel) -> bool {
    &&& c.outgoing_seq == 0
    &&& c.receiving() == channel::Receiving {
        next: 0,
        ahead: Map::empty(),
        ready: Seq::empty(),
        handled: Set::empty(),
        dispatched: Seq::empty(),
    }
}

/// A link of this node's `daemon` destination to a peer, with default settings.
pub open spec fn daemon_link(l: Link, keys: Keys, remote: RnsAddress) -> bool {
    &&& l.local.wf()
    &&& l.local.keys == keys
    &&& l.local.app_name@ == "daemon"@
    &&& l.local.aspects@.len() == 0
    &&& l.remote == remote
    &&& l.config == LinkConfig { mtu: 500, max_retries: 3, handshake_timeout_ms: 30_000 }
    &&& l.inbound@.len() == 0
    &&& l.outbound@.len() == 0
}

/// A new link of this node to a peer.
fn new_link(keys: &Keys, remote: RnsAddress) -> (l: Link)
    ensures
        daemon_link(l, *keys, remote),
        l.transport_id@ == link::xor_16(l.local.hash@, remote@),
        l.state == LinkState::Closed,
        l.remote_encryption_key is None,
        l.remote_signing_key is None,
        l.initiator,
{
    Link::new(Destination::singleton(*keys, "daemon", Vec::new()), remote)
}

/// What comes of a proof of a link that is checked with a transport id.
pub enum ProofCheck {
    Accepted,
    MissingId,
    Malformed(Seq<char>),
    Rejected,
}

/// Checks the proof in a packet against a public key. It is about the transport id of
/// the sender, which is the one in the packet.
pub open spec fn proof_check(key: Seq<u8>, p: PacketModel) -> ProofCheck {
    match p.transport_id {
        None => ProofCheck::MissingId,
        Some(id) => if p.data.len() != 96 {
            ProofCheck::Malformed("invalid proof format: "@ + proofs::length_fault(p.data.len()))
        } else if proofs::proves(key, id, p.data.subrange(0, 32), p.data.subrange(32, 96)) {
            ProofCheck::Accepted
        } else {
            ProofCheck::Rejected
        },
    }
}

/// Whether bytes are a packet whose proof a public key accepts.
pub open spec fn accepted_by(key: Seq<u8>, bytes: Seq<u8>) -> bool {
    packet::parsed_packet(bytes) matches Ok(p) && proof_check(key, p) is Accepted
}

/// Checks the proof in a packet; `missing` and `rejected` are the texts of errors.
fn check_packet_proof(
    key: &[u8; 32],
    p: &Packet,
    missing: &str,
    rejected: &str,
) -> (r: Result<(), DaemonError>)
    ensures
        (match proof_check(key@, p@) {
            ProofCheck::Accepted => r is Ok,
            ProofCheck::MissingId => r matches Err(DaemonError::Other(m)) && m@ == missing@,
            ProofCheck::Malformed(t) => r matches Err(DaemonError::Other(m)) && m@
                == "invalid proof: "@ + t,
            ProofCheck::Rejected => r matches Err(DaemonError::Other(m)) && m@ == rejected@,
        }),
{
    match &p.transport_id {
        None => Err(DaemonError::Other(missing.to_owned())),
        Some(id) => {
            match Proof::from_bytes(p.data.as_slice()) {
                Err(e) => Err(
                    DaemonError::Other(text::join("invalid proof: ", e.to_string().as_str())),
                ),
                Ok(proof) => {
                    match proofs::verify_proof_with_public_key(key, id.as_slice(), &proof) {
                        Ok(_) => Ok(()),
                        Err(_) => Err(DaemonError::Other(rejected.to_owned())),
                    }
                },
            }
        },
    }
}

/// The response to the proof of a peer that begins a link: this node's proof of its own
/// transport id.
pub open spec fn proof_response(keys: Keys, to: Seq<u8>, id: Seq<u8>) -> PacketModel {
    PacketModel {
        header_type: packet::HEADER_2,
        context_flag: packet::FLAG_SET,
        transport_type: packet::TRANSPORT_UNICAST,
        destination_type: packet::DEST_LINK,
        packet_type: packet::PROOF,
        hops: packet::MAX_HOPS,
        destination_hash: to,
        transport_id: Some(id),
        context: packet::LRPROOF,
        data: primitives::sha256_digest(id) + primitives::ed25519_signature(keys.signing@, id),
    }
}

impl Daemon {
    /// Every table is well-formed, channels can carry envelopes, and resources keep
    /// track of their segments.
    pub open spec fn wf(&self) -> bool {
        &&& self.router.wf()
        &&& self.forwarder.wf()
        &&& self.channels.wf()
        &&& self.pending_channels.wf()
        &&& self.peer_keys.wf()
        &&& self.incoming_resources.wf()
        &&& roomy(self.channels@)
        &&& roomy(self.pending_channels@)
        &&& tracked_all(self.incoming_resources@)
    }

    /// The address of this node.
    pub open spec fn address(&self) -> Seq<u8> {
        rns_address::rns_hash(self.keys.identity())
    }

    /// The keys of known peers, by address.
    pub open spec fn peers(&self) -> Map<Seq<u8>, Seq<u8>> {
        ratchet_store::keys_view(self.peer_keys@)
    }

    /// A daemon without links, peers and content.
    pub fn new(keys: Keys) -> (d: Self)
        ensures
            d.wf(),
            d.keys == keys,
            d.router@ == Map::<Seq<u8>, routing::RouteEntry>::empty(),
            d.router.local_addr@ == d.address(),
            d.channels@ == Map::<Seq<u8>, Channel>::empty(),
            d.pending_channels@ == Map::<Seq<u8>, Channel>::empty(),
            d.peers() == Map::<Seq<u8>, Seq<u8>>::empty(),
            d.incoming_resources@ == Map::<Seq<u8>, Resource>::empty(),
            d.router.route_timeout == (TimeSpan { secs: 300, nanos: 0 }),
            d.forwarder.cs.contents().len() == 0,
            d.forwarder.cs.room() == 1000,
            d.forwarder.cs.hits == 0,
            d.forwarder.cs.misses == 0,
            d.forwarder.fib@.len() == 0,
            d.forwarder.pit.table() == Map::<NameView, PitView>::empty(),
            d.forwarder.pit.nonces@.len() == 0,
            d.forwarder.faces@ == Map::<u64, FaceCapabilities>::empty(),
            d.forwarder.notifier@ == Map::<NameView, Seq<u64>>::empty(),
            d.forwarder.key_store@ == Map::<Seq<u8>, Keys>::empty(),
            d.announce_seq == 0,
    {
        let d = Daemon {
            keys,
            router: MeshRouter::new(keys.rns_address()),
            forwarder: Forwarder::new(),
            channels: Table::new(),
            pending_channels: Table::new(),
            peer_keys: Table::new(),
            incoming_resources: Table::new(),
            announce_seq: 0,
        };
        assert(d.peers() =~= Map::<Seq<u8>, Seq<u8>>::empty());
        d
    }

    /// Makes the Ed25519 key of a peer known.
    pub fn register_peer(&mut self, addr: RnsAddress, signing_key: [u8; 32])
        requires
            old(self).wf(),
        ensures
            final(self).wf(),
            final(self).peers() == old(self).peers().insert(addr@, signing_key@),
            *final(self) == (Daemon { peer_keys: final(self).peer_keys, ..*old(self) }),
    {
        self.peer_keys.insert(addr, signing_key);
        assert(self.peers() =~= old(self).peers().insert(addr@, signing_key@));
    }

    /// Whether the key of a peer is known.
    pub fn knows_peer(&self, addr: &RnsAddress) -> (r: bool)
        requires
            self.wf(),
        ensures
            r <==> self.peers().dom().contains(addr@),
    {
        self.peer_keys.contains(addr)
    }

    /// How many peers are known.
    pub fn peer_count(&self) -> (n: usize)
        requires
            self.wf(),
        ensures
            n == self.peers().dom().len(),
    {
        assert(self.peers().dom() =~= self.peer_keys@.dom());
        self.peer_keys.len()
    }

    /// How many links are established.
    pub fn link_count(&self) -> (n: usize)
        requires
            self.wf(),
        ensures
            n == self.channels@.dom().len(),
    {
        self.channels.len()
    }

    /// Counts a round; in every hundredth an announce is due.
    pub fn tick(&mut self) -> (due: bool)
        ensures
            *final(self) == (Daemon {
                announce_seq: old(self).announce_seq.wrapping_add(1),
                ..*old(self)
            }),
            due <==> final(self).announce_seq % 100 == 0,
    {
        self.announce_seq = self.announce_seq.wrapping_add(1);
        self.announce_seq % 100 == 0
    }

    /// Puts content in the content store.
    pub fn publish(&mut self, d: Data, now: TimeSpan)
        requires
            old(self).wf(),
        ensures
            final(self).wf(),
            forwarder::cached_as(old(self).forwarder.cs, final(self).forwarder.cs, d@, now),
            final(self).forwarder == (Forwarder {
                cs: final(self).forwarder.cs,
                ..old(self).forwarder
            }),
            *final(self) == (Daemon { forwarder: final(self).forwarder, ..*old(self) }),
    {
        let ghost c = crate::icn::cs::CachedData { data: d, inserted_at: now.secs };
        let name: Name = d.name.duplicate();
        self.forwarder.cs.insert_at(name, d, now.as_secs());
        assert(self.forwarder.cs.contents() == crate::icn::cs::pushed(
            old(self).forwarder.cs.contents(),
            old(self).forwarder.cs.room(),
            d@.name,
            c,
        ));
    }

    /// Adds a route for content.
    pub fn add_route(&mut self, prefix: Name, face_id: u64, cost: u8)
        requires
            old(self).wf(),
        ensures
            final(self).wf(),
            final(self).forwarder.fib@ == crate::icn::fib::with_route(
                old(self).forwarder.fib@,
                prefix@,
                face_id,
                cost,
            ),
            final(self).forwarder == (Forwarder {
                fib: final(self).forwarder.fib,
                ..old(self).forwarder
            }),
            *final(self) == (Daemon { forwarder: final(self).forwarder, ..*old(self) }),
    {
        self.forwarder.add_route(prefix, face_id, cost);
    }

    // --- Announces ---

    /// What an announce leads to: the key of its sender is known, and the sender is
    /// reached directly over one hop.
    pub open spec fn announce_taken(
        before: Daemon,
        after: Daemon,
        from: RnsAddress,
        p: PacketModel,
        now: TimeSpan,
        r: Option<Announced>,
    ) -> bool {
        &&& announce::announced_view(r) == announce::announced(from@, p.data)
        &&& (match r {
            Some(a) => {
                &&& after.peers() == before.peers().insert(a.address@, a.signing_key@)
                &&& after.router@ == routing::updated(
                    before.router@,
                    a.address,
                    a.address,
                    crate::mesh::PERFECT_QUALITY,
                    1,
                    now,
                )
                &&& after.router.local_addr == before.router.local_addr
                &&& after.router.route_timeout == before.router.route_timeout
                &&& after == Daemon {
                    peer_keys: after.peer_keys,
                    router: after.router,
                    ..before
                }
            },
            None => after == before,
        })
    }

    /// Takes in an announce. A wrong signature is reported, but does not keep the peer
    /// from being registered.
    pub fn handle_announce(&mut self, from: RnsAddress, p: &Packet, now: TimeSpan) -> (r: Option<
        Announced,
    >)
        requires
            old(self).wf(),
        ensures
            final(self).wf(),
            Self::announce_taken(*old(self), *final(self), from, p@, now, r),
    {
        let r: Option<Announced> = announce::read_announce(from, p.data.as_slice());
        match &r {
            Some(a) => {
                self.register_peer(a.address, a.signing_key);
                self.router.update_route(
                    a.address,
                    a.address,
                    crate::mesh::PERFECT_QUALITY,
                    1,
                    now,
                );
            },
            None => {},
        }
        r
    }

    // --- Proofs ---

    /// Who sent a proof: the sender of its frame. Where the frame seems to come from
    /// this node, and the proof does not begin a link, it is the other end of the first
    /// pending, or else established, link with the transport id of the packet.
    pub open spec fn is_sender(&self, from: RnsAddress, p: PacketModel, sender: Option<RnsAddress>) -> bool {
        if p.context == packet::LINKPROOF || from@ != self.address() {
            sender == Some(from)
        } else {
            match p.transport_id {
                None => sender is None,
                Some(id) => if has_id(self.pending_channels.entries@, id) {
                    exists|i: int|
                        #[trigger] first_with_id(self.pending_channels.entries@, id, i) && sender
                            == Some(self.pending_channels.entries@[i].0)
                } else if has_id(self.channels.entries@, id) {
                    exists|i: int|
                        #[trigger] first_with_id(self.channels.entries@, id, i) && sender == Some(
                            self.channels.entries@[i].0,
                        )
                } else {
                    sender is None
                },
            }
        }
    }

    /// Who sent a proof.
    fn proof_sender(&self, from: RnsAddress, p: &Packet) -> (sender: Option<RnsAddress>)
        ensures
            self.is_sender(from, p@, sender),
    {
        let own: RnsAddress = self.keys.rns_address();
        if p.context == packet::LINKPROOF || !from.same(&own) {
            return Some(from);
        }
        match &p.transport_id {
            None => None,
            Some(id) => match peer_by_id(&self.pending_channels, id) {
                Some(a) => {
                    proof {
                        let i = choose|i: int|
                            #[trigger] first_with_id(self.pending_channels.entries@, id@, i) && a
                                == self.pending_channels.entries@[i].0;
                        assert(self.pending_channels.entries@[i].1.link.transport_id@ == id@);
                    }
                    Some(a)
                },
                None => match peer_by_id(&self.channels, id) {
                    Some(a) => {
                        proof {
                            let i = choose|i: int|
                                #[trigger] first_with_id(self.channels.entries@, id@, i) && a
                                    == self.channels.entries@[i].0;
                            assert(self.channels.entries@[i].1.link.transport_id@ == id@);
                        }
                        Some(a)
                    },
                    None => None,
                },
            },
        }
    }

    /// What the proof of a peer that begins a link leads to: with an accepted proof the
    /// link is established under the id that the peer proved, and this node's own proof of
    /// it, which its key accepts, answers.
    pub open spec fn link_begun(
        before: Daemon,
        after: Daemon,
        sender: RnsAddress,
        p: PacketModel,
        r: Result<Option<Outgoing>, DaemonError>,
    ) -> bool {
        match proof_check(before.peers()[sender@], p) {
            ProofCheck::Accepted => {
                &&& after == Daemon { channels: after.channels, ..before }
                &&& after.channels@.dom() == before.channels@.dom().insert(sender@)
                &&& after.channels@ == before.channels@.insert(sender@, after.channels@[sender@])
                &&& ({
                    let c = after.channels@[sender@];
                    &&& fresh_channel(c)
                    &&& daemon_link(c.link, before.keys, sender)
                    &&& c.link.state == LinkState::Established
                    &&& Some(c.link.transport_id@) == p.transport_id
                    &&& c.link.remote_encryption_key is None
                    &&& c.link.remote_signing_key is None
                    &&& c.link.initiator
                    &&& (r matches Ok(Some(out)) && out.to == sender && out.bytes@
                        == packet::packet_bytes(
                        proof_response(before.keys, sender@, c.link.transport_id@),
                    ) && accepted_by(before.keys.identity(), out.bytes@))
                })
            },
            ProofCheck::MissingId => after == before && (r matches Err(DaemonError::Other(m)) && m@
                == "LINKPROOF missing transport_id"@),
            ProofCheck::Malformed(t) => after == before && (r matches Err(DaemonError::Other(m))
                && m@ == "invalid proof: "@ + t),
            ProofCheck::Rejected => after == before && (r matches Err(DaemonError::Other(m)) && m@
                == "proof verification failed"@),
        }
    }

    /// What the answering proof of a peer leads to: the pending link, if there is one,
    /// is no longer pending, and with an accepted proof it is established.
    pub open spec fn link_completed(
        before: Daemon,
        after: Daemon,
        sender: RnsAddress,
        p: PacketModel,
        r: Result<Option<Outgoing>, DaemonError>,
    ) -> bool {
        if !before.pending_channels@.dom().contains(sender@) {
            after == before && r == Ok::<Option<Outgoing>, DaemonError>(None)
        } else {
            &&& after.pending_channels@ == before.pending_channels@.remove(sender@)
            &&& after == Daemon {
                channels: after.channels,
                pending_channels: after.pending_channels,
                ..before
            }
            &&& (match proof_check(before.peers()[sender@], p) {
                ProofCheck::Accepted => {
                    let c = before.pending_channels@[sender@];
                    &&& after.channels@ == before.channels@.insert(
                        sender@,
                        Channel { link: Link { state: LinkState::Established, ..c.link }, ..c },
                    )
                    &&& r == Ok::<Option<Outgoing>, DaemonError>(None)
                },
                ProofCheck::MissingId => after.channels == before.channels && (r matches Err(
                    DaemonError::Other(m),
                ) && m@ == "response proof missing transport_id"@),
                ProofCheck::Malformed(t) => after.channels == before.channels && (r matches Err(
                    DaemonError::Other(m),
                ) && m@ == "invalid proof: "@ + t),
                ProofCheck::Rejected => after.channels == before.channels && (r matches Err(
                    DaemonError::Other(m),
                ) && m@ == "initiator proof verification failed"@),
            })
        }
    }

    /// What a proof leads to. Proofs of unknown senders, and those that neither begin a
    /// link nor answer such a proof, are ignored.
    pub open spec fn proof_taken(
        before: Daemon,
        after: Daemon,
        from: RnsAddress,
        p: PacketModel,
        sender: Option<RnsAddress>,
        r: Result<Option<Outgoing>, DaemonError>,
    ) -> bool {
        &&& before.is_sender(from, p, sender)
        &&& (match sender {
            Some(s) => if !before.peers().dom().contains(s@) {
                after == before && r == Ok::<Option<Outgoing>, DaemonError>(None)
            } else if p.context == packet::LINKPROOF {
                Self::link_begun(before, after, s, p, r)
            } else if p.context == packet::LRPROOF {
                Self::link_completed(before, after, s, p, r)
            } else {
                after == before && r == Ok::<Option<Outgoing>, DaemonError>(None)
            },
            None => after == before && r == Ok::<Option<Outgoing>, DaemonError>(None),
        })
    }

    /// Takes in a proof. What is returned is to be sent.
    pub fn handle_proof(&mut self, from: RnsAddress, p: &Packet) -> (r: Result<
        Option<Outgoing>,
        DaemonError,
    >)
        requires
            old(self).wf(),
        ensures
            final(self).wf(),
            exists|sender: Option<RnsAddress>|
                #[trigger] Self::proof_taken(*old(self), *final(self), from, p@, sender, r),
    {
        let found: Option<RnsAddress> = self.proof_sender(from, p);
        let sender: RnsAddress = match found {
            Some(s) => s,
            None => {
                assert(Self::proof_taken(
                    *old(self),
                    *self,
                    from,
                    p@,
                    found,
                    Ok::<Option<Outgoing>, DaemonError>(None),
                ));
                return Ok(None);
            },
        };
        let key: [u8; 32] = match self.peer_keys.get(&sender) {
            Some(k) => *k,
            None => {
                assert(Self::proof_taken(
                    *old(self),
                    *self,
                    from,
                    p@,
                    found,
                    Ok::<Option<Outgoing>, DaemonError>(None),
                ));
                return Ok(None);
            },
        };
        let r: Result<Option<Outgoing>, DaemonError> = if p.context == packet::LINKPROOF {
            self.begin_link(sender, &key, p)
        } else if p.context == packet::LRPROOF {
            self.complete_link(sender, &key, p)
        } else {
            Ok(None)
        };
        assert(Self::proof_taken(*old(self), *self, from, p@, found, r));
        r
    }

    fn begin_link(&mut self, sender: RnsAddress, key: &[u8; 32], p: &Packet) -> (r: Result<
        Option<Outgoing>,
        DaemonError,
    >)
        requires
            old(self).wf(),
            old(self).peers()[sender@] == key@,
        ensures
            final(self).wf(),
            Self::link_begun(*old(self), *final(self), sender, p@, r),
    {
        match check_packet_proof(
            key,
            p,
            "LINKPROOF missing transport_id",
            "proof verification failed",
        ) {
            Ok(_) => {},
            Err(e) => {
                return Err(e);
            },
        }
        let id: [u8; 16] = match p.transport_id {
            Some(id) => id,
            None => {
                return Ok(None);
            },
        };
        let mut l: Link = new_link(&self.keys, sender);
        l.set_link_id(id);
        let mut channel: Channel = Channel::new(l);
        let own: Proof = proofs::generate_proof(&self.keys, id.as_slice());
        channel.link_mut().set_state(LinkState::Established);
        let response: Packet = Packet {
            header_type: packet::HEADER_2,
            context_flag: packet::FLAG_SET,
            transport_type: packet::TRANSPORT_UNICAST,
            destination_type: packet::DEST_LINK,
            packet_type: packet::PROOF,
            hops: packet::MAX_HOPS,
            destination_hash: *sender.as_bytes(),
            transport_id: Some(id),
            context: packet::LRPROOF,
            data: own.to_bytes(),
        };
        self.channels.insert(sender, channel);
        proof {
            assert(self.channels@.dom() =~= old(self).channels@.dom().insert(sender@));
            assert(response@ =~= proof_response(self.keys, sender@, id@));
            packet::law_packet_roundtrip(response@);
            proofs::law_proof_roundtrip(own);
        }
        Ok(Some(Outgoing { to: sender, bytes: response.to_bytes() }))
    }

    fn complete_link(&mut self, sender: RnsAddress, key: &[u8; 32], p: &Packet) -> (r: Result<
        Option<Outgoing>,
        DaemonError,
    >)
        requires
            old(self).wf(),
            old(self).peers()[sender@] == key@,
        ensures
            final(self).wf(),
            Self::link_completed(*old(self), *final(self), sender, p@, r),
    {
        let mut channel: Channel = match self.pending_channels.remove(&sender) {
            Some(c) => c,
            None => {
                return Ok(None);
            },
        };
        match check_packet_proof(
            key,
            p,
            "response proof missing transport_id",
            "initiator proof verification failed",
        ) {
            Ok(_) => {},
            Err(e) => {
                return Err(e);
            },
        }
        channel.link_mut().set_state(LinkState::Established);
        self.channels.insert(sender, channel);
        Ok(None)
    }

    // --- Link requests ---

    /// What a link request leads to, given the responder's ephemeral secret. A request
    /// without keys or of an unknown peer is ignored. Otherwise the link is established,
    /// and a response, whose signature this node's key accepts, answers the request.
    pub open spec fn request_taken(
        before: Daemon,
        after: Daemon,
        from: RnsAddress,
        p: PacketModel,
        secret: Seq<u8>,
        r: Option<Outgoing>,
    ) -> bool {
        if p.data.len() < 64 || !before.peers().dom().contains(from@) {
            after == before && r is None
        } else {
            let c = after.channels@[from@];
            &&& after == Daemon { channels: after.channels, ..before }
            &&& after.channels@.dom().contains(from@)
            &&& after.channels@ == before.channels@.insert(from@, c)
            &&& fresh_channel(c)
            &&& daemon_link(c.link, before.keys, from)
            &&& c.link.state == LinkState::Established
            &&& c.link.transport_id@ == link_request::link_id_of(p)
            &&& !c.link.initiator
            &&& wire::key_view(c.link.remote_signing_key) == Some(before.peers()[from@])
            &&& wire::key_view(c.link.remote_encryption_key) == Some(p.data.subrange(0, 32))
            &&& (r matches Some(out) && out.to == from && out.bytes@ == packet::packet_bytes(
                link_request::response(
                    before.keys,
                    from@,
                    p,
                    primitives::x25519_public(secret),
                ),
            ))
            &&& link_request::response_accepted(
                before.keys.identity(),
                p,
                primitives::x25519_public(secret),
                link_request::response(
                    before.keys,
                    from@,
                    p,
                    primitives::x25519_public(secret),
                ).data,
            )
        }
    }

    /// Takes in a link request, with a fresh ephemeral secret.
    pub fn handle_linkrequest(&mut self, from: RnsAddress, p: &Packet) -> (r: Option<Outgoing>)
        requires
            old(self).wf(),
        ensures
            final(self).wf(),
            exists|secret: Seq<u8>|
                secret.len() == 32 && #[trigger] Self::request_taken(
                    *old(self),
                    *final(self),
                    from,
                    p@,
                    secret,
                    r,
                ),
    {
        let secret: [u8; 32] = primitives::random_32();
        let r: Option<Outgoing> = self.handle_linkrequest_with(from, p, &secret);
        assert(Self::request_taken(*old(self), *self, from, p@, secret@, r));
        r
    }

    /// Takes in a link request, with a given ephemeral secret.
    pub fn handle_linkrequest_with(
        &mut self,
        from: RnsAddress,
        p: &Packet,
        secret: &[u8; 32],
    ) -> (r: Option<Outgoing>)
        requires
            old(self).wf(),
        ensures
            final(self).wf(),
            Self::request_taken(*old(self), *final(self), from, p@, secret@, r),
    {
        if p.data.len() < 64 {
            return None;
        }
        let signing_key: [u8; 32] = match self.peer_keys.get(&from) {
            Some(k) => *k,
            None => {
                return None;
            },
        };
        let ephemeral: [u8; 32] = wire::read_32(p.data.as_slice(), 0);
        let link_id: [u8; 16] = link_request::compute_link_id_from_request(p);
        let public: [u8; 32] = primitives::x25519_public_key(secret);
        let response: Packet = link_request::build_response(&self.keys, from, p, &public);
        let mut l: Link = new_link(&self.keys, from);
        l.set_link_id(link_id);
        l.set_initiator(false);
        l.set_remote_signing_key(signing_key);
        l.set_remote_encryption_key(ephemeral);
        l.set_state(LinkState::Established);
        self.channels.insert(from, Channel::new(l));
        Some(Outgoing { to: from, bytes: response.to_bytes() })
    }

    // --- Messages on links ---

    /// What a packet on a link leads to. Packets of peers without a link are ignored;
    /// otherwise the channel takes the packet in, and all messages that are ready are
    /// taken out.
    pub open spec fn link_data_taken(
        before: Daemon,
        after: Daemon,
        from: RnsAddress,
        p: PacketModel,
        r: Result<Vec<Vec<u8>>, DaemonError>,
    ) -> bool {
        if !before.channels@.dom().contains(from@) {
            after == before && (r matches Ok(v) && v@.len() == 0)
        } else {
            let c = before.channels@[from@];
            let d = after.channels@[from@];
            &&& after == Daemon { channels: after.channels, ..before }
            &&& after.channels@.dom().contains(from@)
            &&& after.channels@ == before.channels@.insert(from@, d)
            &&& d.outgoing_seq == c.outgoing_seq
            &&& d.link == Link { inbound: d.link.inbound, ..c.link }
            &&& (match c.link.delivered(p) {
                Err(f) => d == c && (r matches Err(
                    DaemonError::Channel(ChannelError::Transport(e)),
                ) && e@ == f),
                Ok(m) => {
                    let (state, rest, fault) = channel::accept_all(
                        c.receiving(),
                        wire::all_bytes(c.link.inbound@).push(m),
                    );
                    &&& wire::all_bytes(d.link.inbound@) == rest
                    &&& (match fault {
                        Some(f) => d.receiving() == state && (r matches Err(
                            DaemonError::Channel(ChannelError::Transport(e)),
                        ) && e@ == f),
                        None => d.receiving() == (channel::Receiving {
                            ready: Seq::empty(),
                            ..state
                        }) && (r matches Ok(v) && wire::all_bytes(v@) == state.ready),
                    })
                },
            })
        }
    }

    /// Takes in a packet on a link: the messages that are now ready.
    pub fn handle_link_data(&mut self, from: RnsAddress, p: &Packet) -> (r: Result<
        Vec<Vec<u8>>,
        DaemonError,
    >)
        requires
            old(self).wf(),
        ensures
            final(self).wf(),
            Self::link_data_taken(*old(self), *final(self), from, p@, r),
    {
        let mut channel: Channel = match self.channels.remove(&from) {
            Some(c) => c,
            None => {
                return Ok(Vec::new());
            },
        };
        let taken: Result<(), ChannelError> = channel.deliver(p);
        let mut messages: Vec<Vec<u8>> = Vec::new();
        if taken.is_ok() {
            drain(&mut channel, &mut messages);
        }
        proof {
            assert(old(self).channels@.dom().contains(from@));
        }
        self.channels.insert(from, channel);
        proof {
            assert(self.channels@ =~= old(self).channels@.insert(from@, channel));
        }
        match taken {
            Ok(_) => Ok(messages),
            Err(e) => Err(DaemonError::Channel(e)),
        }
    }

    /// What content, or a request for content, leads to.
    pub open spec fn content_taken(
        before: Daemon,
        after: Daemon,
        bytes: Seq<u8>,
        waiter: u64,
        now: TimeSpan,
        r: Result<Reaction, DaemonError>,
    ) -> bool {
        &&& after == Daemon { forwarder: after.forwarder, ..before }
        &&& if data::data_fault(bytes) is None {
            exists|d: DataView| #[trigger]
                data::holds_data(bytes, d) && (match forwarder::complaint(
                    before.forwarder.key_store@,
                    d,
                ) {
                    Some(m) => after == before && (r matches Err(DaemonError::Icn(t)) && t@ == m),
                    None => r matches Ok(Reaction::Received(x, told)) && x@ == d
                        && Forwarder::received(
                        before.forwarder,
                        after.forwarder,
                        d,
                        now,
                        told,
                    ),
                })
        } else {
            match interest::parsed_interest(bytes) {
                Ok(i) => exists|nonce: [u8; 8], step: StepView| #[trigger]
                    Forwarder::expressed(
                        before.forwarder,
                        after.forwarder,
                        i,
                        nonce,
                        0,
                        waiter,
                        now,
                        step,
                    ) && nonce@ == i.nonce && answered(i, step, r),
                Err(_) => after == before && r == Ok::<Reaction, DaemonError>(Reaction::Nothing),
            }
        }
    }

    /// Takes in bytes that may be content, or a request for content.
    pub fn handle_icn_frame(&mut self, bytes: &[u8], waiter: u64, now: TimeSpan) -> (r: Result<
        Reaction,
        DaemonError,
    >)
        requires
            old(self).wf(),
        ensures
            final(self).wf(),
            Self::content_taken(*old(self), *final(self), bytes@, waiter, now, r),
    {
        match Data::from_bytes(bytes) {
            Ok(d) => {
                let copy: Data = d.duplicate();
                assert(data::holds_data(bytes@, d@));
                match self.forwarder.receive_data(d, now) {
                    Ok(told) => Ok(Reaction::Received(copy, told)),
                    Err(e) => Err(DaemonError::Icn(e)),
                }
            },
            Err(_) => match Interest::from_bytes(bytes) {
                Ok(i) => {
                    let step: Step = self.forwarder.express(&i, 0, waiter, now);
                    assert(Forwarder::expressed(
                        old(self).forwarder,
                        self.forwarder,
                        i@,
                        i.nonce,
                        0,
                        waiter,
                        now,
                        step@,
                    ));
                    match step {
                        Step::Done(Ok(Some(d))) => Ok(Reaction::Reply(d.to_bytes())),
                        Step::Done(_) => Ok(Reaction::Nothing),
                        other => Ok(Reaction::Carry(i, other)),
                    }
                },
                Err(_) => Ok(Reaction::Nothing),
            },
        }
    }

    /// Whether bytes are a segment of a resource that is being received.
    pub open spec fn is_own_segment(&self, bytes: Seq<u8>, s: SegmentModel) -> bool {
        &&& bytes.len() > 4
        &&& codec::segment_fields(bytes) == Some(
            (s.resource_hash, s.index as nat, s.total as nat, s.data, s.checksum),
        )
        &&& self.incoming_resources@.dom().contains(s.resource_hash)
    }

    /// What a segment of a resource that is being received leads to: with the last
    /// segment the data is published, and the resource is gone.
    pub open spec fn segment_taken(
        before: Daemon,
        after: Daemon,
        s: SegmentModel,
        now: TimeSpan,
        r: Result<Reaction, DaemonError>,
    ) -> bool {
        let old_resource = before.incoming_resources@[s.resource_hash];
        match old_resource.tracker.fault(s) {
            Some(f) => {
                &&& (r matches Err(DaemonError::Transport(e)) && e@ == f)
                &&& after.incoming_resources@ == before.incoming_resources@.insert(
                    s.resource_hash,
                    resource::segment_refused(old_resource),
                )
                &&& after == Daemon { incoming_resources: after.incoming_resources, ..before }
            },
            None => {
                &&& r == Ok::<Reaction, DaemonError>(Reaction::Nothing)
                &&& after == Daemon {
                    incoming_resources: after.incoming_resources,
                    forwarder: after.forwarder,
                    ..before
                }
                &&& exists|now_held: Resource, segment: Segment| #[trigger]
                    resource::segment_added(old_resource, now_held, segment) && segment@ == s && (
                    if now_held.tracker.complete {
                        &&& after.incoming_resources@ == before.incoming_resources@.remove(
                            s.resource_hash,
                        )
                        &&& after.forwarder == (Forwarder {
                            cs: after.forwarder.cs,
                            ..before.forwarder
                        })
                        &&& (now_held.data matches Some(content) ==> exists|d: DataView|
                            #[trigger] forwarder::cached_as(
                                before.forwarder.cs,
                                after.forwarder.cs,
                                d,
                                now,
                            ) && is_unsigned(d, unnamed(), content@))
                    } else {
                        &&& after.incoming_resources@ == before.incoming_resources@.insert(
                            s.resource_hash,
                            now_held,
                        )
                        &&& after.forwarder == before.forwarder
                    })
            },
        }
    }

    /// Takes in a message of a link: a segment of a resource that is being received,
    /// content, or a request for content.
    pub fn handle_message(&mut self, bytes: &[u8], waiter: u64, now: TimeSpan) -> (r: Result<
        Reaction,
        DaemonError,
    >)
        requires
            old(self).wf(),
        ensures
            final(self).wf(),
            forall|s: SegmentModel| #[trigger]
                old(self).is_own_segment(bytes@, s) ==> Self::segment_taken(
                    *old(self),
                    *final(self),
                    s,
                    now,
                    r,
                ),
            (forall|s: SegmentModel| !#[trigger] old(self).is_own_segment(bytes@, s))
                ==> Self::content_taken(*old(self), *final(self), bytes@, waiter, now, r),
    {
        if bytes.len() > 4 {
            match Segment::from_bytes(bytes) {
                Some(segment) => {
                    if self.incoming_resources.contains(&segment.resource_hash) {
                        let ghost s = segment@;
                        proof {
                            assert(old(self).is_own_segment(bytes@, s));
                            assert forall|t: SegmentModel| #[trigger]
                                old(self).is_own_segment(bytes@, t) implies t == s by {
                                assert(t =~= s);
                            }
                        }
                        return self.take_segment(segment, now);
                    }
                },
                None => {},
            }
        }
        self.handle_icn_frame(bytes, waiter, now)
    }

    fn take_segment(&mut self, segment: Segment, now: TimeSpan) -> (r: Result<
        Reaction,
        DaemonError,
    >)
        requires
            old(self).wf(),
            old(self).incoming_resources@.dom().contains(segment@.resource_hash),
        ensures
            final(self).wf(),
            Self::segment_taken(*old(self), *final(self), segment@, now, r),
    {
        let hash: Vec<u8> = wire::copy_all(segment.resource_hash.as_slice());
        let ghost s = segment;
        let mut held: Resource = match self.incoming_resources.remove(&hash) {
            Some(x) => x,
            None => {
                return Ok(Reaction::Nothing);
            },
        };
        let ghost before = held;
        match held.receive_segment(segment) {
            Err(e) => {
                self.incoming_resources.insert(hash, held);
                proof {
                    assert(self.incoming_resources@ =~= old(self).incoming_resources@.insert(
                        s@.resource_hash,
                        held,
                    ));
                }
                Err(DaemonError::Transport(e))
            },
            Ok(complete) => {
                assert(resource::segment_added(before, held, s));
                if !complete {
                    self.incoming_resources.insert(hash, held);
                    proof {
                        assert(self.incoming_resources@ =~= old(self).incoming_resources@.insert(
                            s@.resource_hash,
                            held,
                        ));
                    }
                    return Ok(Reaction::Nothing);
                }
                match held.data() {
                    Some(content) => {
                        let copy: Vec<u8> = wire::copy_all(content);
                        let nobody: [u8; 32] = [0u8; 32];
                        let d: Data = unsigned_data(nobody, copy);
                        proof {
                            assert(nobody@ =~= Seq::new(32, |i: int| 0u8));
                            assert(seq![nobody@] =~= unnamed().0);
                        }
                        self.publish(d, now);
                    },
                    None => {},
                }
                Ok(Reaction::Nothing)
            },
        }
    }
}

/// The name of content without a producer: 32 zeros.
pub open spec fn unnamed() -> NameView {
    (seq![Seq::new(32, |i: int| 0u8)], None)
}

/// What the result of an Interest leads to: Data answers the sender; what is not done
/// yet is carried on with.
pub open spec fn answered(i: InterestView, step: StepView, r: Result<Reaction, DaemonError>) -> bool {
    match step {
        StepView::Done(Ok(Some(d))) => r matches Ok(Reaction::Reply(b)) && b@ == data::data_bytes(
            d,
        ),
        StepView::Done(_) => r == Ok::<Reaction, DaemonError>(Reaction::Nothing),
        _ => r matches Ok(Reaction::Carry(x, s)) && x@ == i && s@ == step,
    }
}

/// Whether Data is content under a name without a proof, and fresh.
pub open spec fn is_unsigned(d: DataView, n: NameView, content: Seq<u8>) -> bool {
    &&& d.name == n
    &&& d.content == content
    &&& d.signature.packet_hash@ == Seq::new(32, |i: int| 0u8)
    &&& d.signature.signature@ == Seq::new(64, |i: int| 0u8)
    &&& d.metadata.content_hash == Some(primitives::blake3_digest(content))
    &&& d.metadata.sequence is None
    &&& d.metadata.freshness is Fresh
}

/// Content of a producer without a proof.
pub fn unsigned_data(producer: [u8; 32], content: Vec<u8>) -> (d: Data)
    ensures
        is_unsigned(d@, (seq![producer@], None::<Seq<u8>>), content@),
{
    let path: [&[u8]; 0] = [];
    let name: Name = Name::new(producer, path.as_slice());
    let none: Proof = Proof { packet_hash: [0u8; 32], signature: [0u8; 64] };
    proof {
        assert(name@.0 =~= seq![producer@]);
        assert(none.packet_hash@ =~= Seq::new(32, |i: int| 0u8));
        assert(none.signature@ =~= Seq::new(64, |i: int| 0u8));
    }
    Data::new(name, content, none)
}

/// Takes all messages out that are ready.
fn drain(channel: &mut Channel, messages: &mut Vec<Vec<u8>>)
    requires
        old(messages)@.len() == 0,
    ensures
        wire::all_bytes(final(messages)@) == old(channel).receiving().ready,
        final(channel).receiving() == (channel::Receiving {
            ready: Seq::empty(),
            ..old(channel).receiving()
        }),
        final(channel).link == old(channel).link,
        final(channel).outgoing_seq == old(channel).outgoing_seq,
{
    let ghost all = channel.receiving().ready;
    proof {
        assert(wire::all_bytes(messages@) + all =~= all);
    }
    loop
        invariant
            wire::all_bytes(messages@) + channel.receiving().ready == all,
            channel.receiving() == (channel::Receiving {
                ready: channel.receiving().ready,
                ..old(channel).receiving()
            }),
            channel.link == old(channel).link,
            channel.outgoing_seq == old(channel).outgoing_seq,
            all == old(channel).receiving().ready,
        ensures
            channel.receiving().ready.len() == 0,
        decreases channel.receiving().ready.len(),
    {
        let ghost before = messages@;
        let ghost waiting = channel.ready@;
        match channel.recv() {
            Some(m) => {
                messages.push(m);
                proof {
                    assert(wire::all_bytes(waiting)[0] == m@);
                    assert(wire::all_bytes(messages@) =~= wire::all_bytes(before).push(m@));
                    assert(wire::all_bytes(messages@) + channel.receiving().ready
                        =~= wire::all_bytes(before) + wire::all_bytes(waiting));
                }
            },
            None => {
                assert(channel.receiving().ready.len() == waiting.len());
                break;
            },
        }
    }
    proof {
        assert(channel.receiving().ready =~= Seq::empty());
        assert(wire::all_bytes(messages@) =~= all);
    }
}

/// After a daemon has taken in the announce of an identity, it knows the identity's Ed25519
/// key under the announced address, and has a route to it; where there was none before, it
/// is direct. Nothing else that the daemon knows or holds has changed.
pub proof fn law_announced_peer_is_known(
    before: Daemon,
    after: Daemon,
    from: RnsAddress,
    keys: Keys,
    random: Seq<u8>,
    made_at: u64,
    now: TimeSpan,
    r: Option<Announced>,
)
    requires
        keys.exchange().len() == 32,
        keys.identity().len() == 32,
        announce::announce_packet(keys, random, made_at).data.len() == 148,
        Daemon::announce_taken(
            before,
            after,
            from,
            announce::announce_packet(keys, random, made_at),
            now,
            r,
        ),
    ensures
        ({
            let address = primitives::sha256_digest(
                keys.exchange() + keys.identity(),
            ).subrange(0, 16);
            &&& r matches Some(a) && a.address@ == address && a.signing_key@ == keys.identity()
            &&& after.peers().dom().contains(address)
            &&& after.peers()[address] == keys.identity()
            &&& forall|k: Seq<u8>|
                k != address ==> (#[trigger] after.peers().dom().contains(k)
                    <==> before.peers().dom().contains(k)) && after.peers()[k] == before.peers()[k]
            &&& after.router@.dom().contains(address)
            &&& (!before.router@.dom().contains(address) ==> after.router@[address].next_hop@
                == address && after.router@[address].hop_count == 1
                && after.router@[address].last_refresh == now)
            &&& after.channels == before.channels
            &&& after.pending_channels == before.pending_channels
            &&& after.forwarder == before.forwarder
            &&& after.keys == before.keys
        }),
{
    announce::law_announce_tells_key(keys, random, made_at, from@);
    let a = r->0;
    assert forall|k: Seq<u8>| k != a.address@ implies (#[trigger] after.peers().dom().contains(k)
        <==> before.peers().dom().contains(k)) && after.peers()[k] == before.peers()[k] by {
    }
}

/// Whatever an announce says, its sender's key is known from then on under the sender's
/// address, and no other key is. An announce that is too short for a key changes nothing.
pub proof fn law_announce_registers(
    before: Daemon,
    after: Daemon,
    from: RnsAddress,
    p: PacketModel,
    now: TimeSpan,
    r: Option<Announced>,
)
    requires
        Daemon::announce_taken(before, after, from, p, now, r),
    ensures
        p.data.len() < 32 ==> after == before && r is None,
        32 <= p.data.len() < 64 ==> after.peers() == before.peers().insert(
            from@,
            p.data.subrange(0, 32),
        ),
        64 <= p.data.len() < 148 ==> after.peers() == before.peers().insert(
            from@,
            p.data.subrange(32, 64),
        ),
        p.data.len() >= 148 ==> after.peers() == before.peers().insert(
            primitives::sha256_digest(p.data.subrange(0, 64)).subrange(0, 16),
            p.data.subrange(32, 64),
        ),
{
    announce::law_announce_places(from@, p.data);
}

/// A peer that has announced itself can begin a link: its proof of a transport id is
/// acted on, the link is established under that id, and this node's own proof of the id
/// answers. Without the announce, of a peer that is not known, the proof is ignored.
pub proof fn law_announced_peer_can_link(
    before: Daemon,
    known: Daemon,
    after: Daemon,
    from: RnsAddress,
    peer: RnsAddress,
    keys: Keys,
    random: Seq<u8>,
    made_at: u64,
    now: TimeSpan,
    r: Option<Announced>,
    p: PacketModel,
    id: Seq<u8>,
    sender: Option<RnsAddress>,
    answer: Result<Option<Outgoing>, DaemonError>,
)
    requires
        keys.exchange().len() == 32,
        keys.identity().len() == 32,
        announce::announce_packet(keys, random, made_at).data.len() == 148,
        Daemon::announce_taken(
            before,
            known,
            from,
            announce::announce_packet(keys, random, made_at),
            now,
            r,
        ),
        peer@ == primitives::sha256_digest(keys.exchange() + keys.identity()).subrange(0, 16),
        p.context == packet::LINKPROOF,
        p.transport_id == Some(id),
        p.data.len() == 96,
        p.data.subrange(0, 32) == primitives::sha256_digest(id),
        primitives::ed25519_accepts(keys.identity(), id, p.data.subrange(32, 96)),
        Daemon::proof_taken(known, after, peer, p, sender, answer),
    ensures
        after.channels@.dom().contains(peer@),
        after.channels@[peer@].link.state == LinkState::Established,
        after.channels@[peer@].link.transport_id@ == id,
        after.channels@[peer@].link.remote == peer,
        answer matches Ok(Some(out)) && out.to == peer,
{
    law_announced_peer_is_known(before, known, from, keys, random, made_at, now, r);
}

/// A proof of a peer that is not known changes nothing and is not answered.
pub proof fn law_unknown_peer_is_ignored(
    before: Daemon,
    after: Daemon,
    from: RnsAddress,
    p: PacketModel,
    sender: Option<RnsAddress>,
    r: Result<Option<Outgoing>, DaemonError>,
)
    requires
        !before.peers().dom().contains(from@),
        from@ != before.address(),
        Daemon::proof_taken(before, after, from, p, sender, r),
    ensures
        after == before,
        r == Ok::<Option<Outgoing>, DaemonError>(None),
{
}

/// No link is established by a proof that the known key of its sender does not accept: the
/// links are as before, and an error is reported where one was being made.
pub proof fn law_wrong_proof_no_link(
    before: Daemon,
    after: Daemon,
    from: RnsAddress,
    p: PacketModel,
    id: Seq<u8>,
    sender: Option<RnsAddress>,
    r: Result<Option<Outgoing>, DaemonError>,
)
    requires
        before.peers().dom().contains(from@),
        from@ != before.address(),
        p.transport_id == Some(id),
        p.data.len() == 96,
        p.data.subrange(0, 32) != primitives::sha256_digest(id) || !primitives::ed25519_accepts(
            before.peers()[from@],
            id,
            p.data.subrange(32, 96),
        ),
        Daemon::proof_taken(before, after, from, p, sender, r),
    ensures
        after.channels == before.channels,
        !(r matches Ok(Some(_))),
        p.context == packet::LINKPROOF ==> r is Err,
        p.context == packet::LRPROOF && before.pending_channels@.dom().contains(from@)
            ==> r is Err && !after.pending_channels@.dom().contains(from@),
{
}

/// A pending link whose answering proof is accepted is established: the channel moves,
/// with all that it holds, from the pending to the established ones.
pub proof fn law_pending_link_is_established(
    before: Daemon,
    after: Daemon,
    from: RnsAddress,
    p: PacketModel,
    id: Seq<u8>,
    sender: Option<RnsAddress>,
    r: Result<Option<Outgoing>, DaemonError>,
)
    requires
        before.peers().dom().contains(from@),
        from@ != before.address(),
        before.pending_channels@.dom().contains(from@),
        p.context == packet::LRPROOF,
        p.transport_id == Some(id),
        p.data.len() == 96,
        p.data.subrange(0, 32) == primitives::sha256_digest(id),
        primitives::ed25519_accepts(before.peers()[from@], id, p.data.subrange(32, 96)),
        Daemon::proof_taken(before, after, from, p, sender, r),
    ensures
        r == Ok::<Option<Outgoing>, DaemonError>(None),
        !after.pending_channels@.dom().contains(from@),
        after.channels@.dom().contains(from@),
        after.channels@[from@].link.state == LinkState::Established,
        after.channels@[from@].link.transport_id
            == before.pending_channels@[from@].link.transport_id,
        after.channels@[from@].outgoing_seq == before.pending_channels@[from@].outgoing_seq,
        after.channels@[from@].receiving() == before.pending_channels@[from@].receiving(),
        forall|k: Seq<u8>|
            k != from@ && #[trigger] before.channels@.dom().contains(k) ==> after.channels@[k]
                == before.channels@[k],
{
}

/// A link request of a known peer is answered, and the link is held under the identifier
/// that both ends compute from the request, with the peer's known Ed25519 key and the
/// ephemeral key of the request. From the answer alone the peer learns this node's
/// ephemeral key and the signalling of its request, and can check this node's signature.
pub proof fn law_link_request_is_answered(
    before: Daemon,
    after: Daemon,
    from: RnsAddress,
    p: PacketModel,
    secret: Seq<u8>,
    r: Option<Outgoing>,
)
    requires
        primitives::x25519_public(secret).len() == 32,
        p.data.len() >= 64,
        before.peers().dom().contains(from@),
        Daemon::request_taken(before, after, from, p, secret, r),
    ensures
        after.channels@.dom().contains(from@),
        after.channels@[from@].link.state == LinkState::Established,
        !after.channels@[from@].link.initiator,
        after.channels@[from@].link.remote == from,
        after.channels@[from@].link.transport_id@ == link_request::link_id_of(p),
        after.channels@[from@].link.remote_signing_key matches Some(k) && k@
            == before.peers()[from@],
        after.channels@[from@].link.remote_encryption_key matches Some(k) && k@
            == p.data.subrange(0, 32),
        forall|k: Seq<u8>|
            k != from@ && #[trigger] before.channels@.dom().contains(k) ==> after.channels@[k]
                == before.channels@[k],
        after.pending_channels == before.pending_channels,
        r matches Some(out) && out.to == from && (packet::parsed_packet(out.bytes@) matches Ok(q)
            && q.destination_hash == from@ && q.packet_type == packet::PROOF && q.context
            == packet::LRPROOF && q.data.len() == 102 && q.data.subrange(64, 96)
            == primitives::x25519_public(secret) && (p.data.len() >= 70 ==> q.data.subrange(
            96,
            102,
        ) == p.data.subrange(64, 70)) && primitives::ed25519_accepts(
            before.keys.identity(),
            link_request::link_id_of(p) + q.data.subrange(64, 96) + before.keys.identity()
                + q.data.subrange(96, 102),
            q.data.subrange(0, 64),
        )),
{
    let public = primitives::x25519_public(secret);
    link_request::law_response_serves_initiator(before.keys, from@, p, public);
    packet::law_packet_roundtrip(link_request::response(before.keys, from@, p, public));
}

/// A link request without both keys, or of a peer that is not known, changes nothing and
/// is not answered.
pub proof fn law_link_request_is_ignored(
    before: Daemon,
    after: Daemon,
    from: RnsAddress,
    p: PacketModel,
    secret: Seq<u8>,
    r: Option<Outgoing>,
)
    requires
        p.data.len() < 64 || !before.peers().dom().contains(from@),
        Daemon::request_taken(before, after, from, p, secret, r),
    ensures
        after == before,
        r is None,
{
}

/// A packet of a peer without a link changes nothing. A packet that the link refuses
/// changes nothing either, and its fault is reported.
pub proof fn law_link_data_is_refused(
    before: Daemon,
    after: Daemon,
    from: RnsAddress,
    p: PacketModel,
    r: Result<Vec<Vec<u8>>, DaemonError>,
)
    requires
        Daemon::link_data_taken(before, after, from, p, r),
    ensures
        !before.channels@.dom().contains(from@) ==> after == before && (r matches Ok(v) && v@.len()
            == 0),
        before.channels@.dom().contains(from@) && before.channels@[from@].link.delivered(p) is Err
            ==> after.channels@ == before.channels@ && r is Err,
        after.peers() == before.peers(),
        after.forwarder == before.forwarder,
        forall|k: Seq<u8>|
            k != from@ && #[trigger] before.channels@.dom().contains(k) ==> after.channels@[k]
                == before.channels@[k],
{
    if before.channels@.dom().contains(from@) && before.channels@[from@].link.delivered(p) is Err {
        assert(after.channels@ =~= before.channels@);
    }
}

/// A request for content that the content store holds under that very name is answered
/// with the bytes of that content, where the request has no selector.
pub proof fn law_request_is_served(
    before: Daemon,
    after: Daemon,
    bytes: Seq<u8>,
    waiter: u64,
    now: TimeSpan,
    r: Result<Reaction, DaemonError>,
    i: InterestView,
    d: DataView,
)
    requires
        data::data_fault(bytes) is Some,
        interest::parsed_interest(bytes) matches Ok(x) && x == i,
        !i.can_be_prefix,
        i.selector is None,
        crate::icn::cs::found(before.forwarder.cs.contents(), i.name) matches Some(c) && c.data@ == d,
        !crate::icn::pit::nonce_seen(before.forwarder.pit.nonces@, 0, i.nonce),
        Daemon::content_taken(before, after, bytes, waiter, now, r),
    ensures
        r matches Ok(Reaction::Reply(b)) && b@ == data::data_bytes(d),
        after.channels == before.channels,
        after.peers() == before.peers(),
{
    let (nonce, step): ([u8; 8], StepView) = choose|nonce: [u8; 8], step: StepView| #[trigger]
        Forwarder::expressed(
            before.forwarder,
            after.forwarder,
            i,
            nonce,
            0,
            waiter,
            now,
            step,
        ) && nonce@ == i.nonce && answered(i, step, r);
    forwarder::law_cached_data_answers(
        before.forwarder,
        after.forwarder,
        i,
        nonce,
        0,
        waiter,
        now,
        step,
        d,
    );
}

/// Bytes that are neither content nor a request for content change nothing.
pub proof fn law_other_bytes_are_ignored(
    before: Daemon,
    after: Daemon,
    bytes: Seq<u8>,
    waiter: u64,
    now: TimeSpan,
    r: Result<Reaction, DaemonError>,
)
    requires
        data::data_fault(bytes) is Some,
        interest::parsed_interest(bytes) is Err,
        Daemon::content_taken(before, after, bytes, waiter, now, r),
    ensures
        after == before,
        r == Ok::<Reaction, DaemonError>(Reaction::Nothing),
{
}

/// Content that comes in is handed on only where its producer's keys accept it; it is then
/// in the content store. Otherwise nothing changes and an error is reported.
pub proof fn law_content_is_verified(
    before: Daemon,
    after: Daemon,
    bytes: Seq<u8>,
    waiter: u64,
    now: TimeSpan,
    r: Result<Reaction, DaemonError>,
)
    requires
        before.wf(),
        data::data_fault(bytes) is None,
        Daemon::content_taken(before, after, bytes, waiter, now, r),
    ensures
        r matches Ok(Reaction::Received(x, told)) ==> forwarder::complaint(
            before.forwarder.key_store@,
            x@,
        ) is None && (crate::icn::cs::found(after.forwarder.cs.contents(), x@.name) matches Some(c)
            && c.data@ == x@) && data::holds_data(bytes, x@),
        !(r matches Ok(Reaction::Received(_, _))) ==> after == before && r is Err,
{
    let d = choose|d: DataView| #[trigger]
        data::holds_data(bytes, d) && (match forwarder::complaint(
            before.forwarder.key_store@,
            d,
        ) {
            Some(m) => after == before && (r matches Err(DaemonError::Icn(t)) && t@ == m),
            None => r matches Ok(Reaction::Received(x, told)) && x@ == d && Forwarder::received(
                before.forwarder,
                after.forwarder,
                d,
                now,
                told,
            ),
        });
    if let Ok(Reaction::Received(x, told)) = r {
        forwarder::law_received_data_is_cached(before.forwarder.cs, after.forwarder.cs, d, now);
    }
}

/// A segment that completes a resource puts its data in the content store, and the resource
/// is no longer being received. Before that, it is; a refused segment is reported.
pub proof fn law_completed_resource_is_published(
    before: Daemon,
    after: Daemon,
    s: SegmentModel,
    now: TimeSpan,
    r: Result<Reaction, DaemonError>,
    content: Seq<u8>,
)
    requires
        before.wf(),
        before.incoming_resources@.dom().contains(s.resource_hash),
        Daemon::segment_taken(before, after, s, now, r),
    ensures
        ({
            let t = before.incoming_resources@[s.resource_hash].tracker;
            &&& (t.fault(s) is Some ==> r is Err && after.incoming_resources@.dom().contains(
                s.resource_hash,
            ) && after.forwarder == before.forwarder)
            &&& (t.fault(s) is None ==> r is Ok)
            &&& (t.fault(s) is None && crate::pieces::all_below(
                t.received@.dom().insert(s.index),
                t.total as nat,
            ) && crate::pieces::joined(
                resource::data_view(t.received@).insert(s.index, s.data),
                t.total as nat,
            ) == content ==> !after.incoming_resources@.dom().contains(s.resource_hash) && (
            crate::icn::cs::found(after.forwarder.cs.contents(), unnamed()) matches Some(c)
                && c.data@.content == content))
            &&& (t.fault(s) is None && !crate::pieces::all_below(
                t.received@.dom().insert(s.index),
                t.total as nat,
            ) ==> after.incoming_resources@.dom().contains(s.resource_hash) && after.forwarder
                == before.forwarder)
        }),
{
    let old_resource = before.incoming_resources@[s.resource_hash];
    let t = old_resource.tracker;
    if t.fault(s) is None {
        let (held, segment) = choose|now_held: Resource, segment: Segment| #[trigger]
            resource::segment_added(old_resource, now_held, segment) && segment@ == s && (
            if now_held.tracker.complete {
                &&& after.incoming_resources@ == before.incoming_resources@.remove(s.resource_hash)
                &&& after.forwarder == (Forwarder { cs: after.forwarder.cs, ..before.forwarder })
                &&& (now_held.data matches Some(content) ==> exists|d: DataView|
                    #[trigger] forwarder::cached_as(
                        before.forwarder.cs,
                        after.forwarder.cs,
                        d,
                        now,
                    ) && is_unsigned(d, unnamed(), content@))
            } else {
                &&& after.incoming_resources@ == before.incoming_resources@.insert(
                    s.resource_hash,
                    now_held,
                )
                &&& after.forwarder == before.forwarder
            });
        assert(held.tracker.received@.dom() =~= t.received@.dom().insert(s.index));
        assert(resource::data_view(held.tracker.received@) =~= resource::data_view(
            t.received@,
        ).insert(s.index, s.data));
        if held.tracker.complete {
            let x = held.data->0;
            let d = choose|d: DataView|
                #[trigger] forwarder::cached_as(
                    before.forwarder.cs,
                    after.forwarder.cs,
                    d,
                    now,
                ) && is_unsigned(d, unnamed(), x@);
            forwarder::law_received_data_is_cached(before.forwarder.cs, after.forwarder.cs, d, now);
        }
    }
}

/// A daemon that takes in the announce that an identity made knows that identity's key
/// under the announced address from then on, and counts it among its peers.
pub proof fn law_announce_is_taken_in(
    keys: &Keys,
    random: &[u8; 5],
    made_at: u64,
    p: Packet,
    d: &mut Daemon,
    from: RnsAddress,
    now: TimeSpan,
    r: Option<Announced>,
    known: &Daemon,
    peer: &RnsAddress,
    is_known: bool,
)
    requires
        call_ensures(announce::build_announce_packet_with, (keys, random, made_at), p),
        old(d).wf(),
        call_ensures(Daemon::handle_announce, (d, from, &p, now), r),
        keys.exchange().len() == 32,
        keys.identity().len() == 32,
        *known == *final(d),
        peer@ == primitives::sha256_digest(keys.exchange() + keys.identity()).subrange(0, 16),
        call_ensures(Daemon::knows_peer, (known, peer), is_known),
    ensures
        is_known,
        known.peers()[peer@] == keys.identity(),
        r matches Some(a) && a.address@ == peer@ && a.signing_key@ == keys.identity(),
        known.router@.dom().contains(peer@),
{
    law_announced_peer_is_known(*d, *known, from, *keys, random@, made_at, now, r);
}

/// Of every hundred rounds one is due for an announce, and no sooner.
pub proof fn law_announce_every_hundredth(d: &mut Daemon, due: bool)
    requires
        call_ensures(Daemon::tick, (d,), due),
        old(d).announce_seq < u64::MAX,
    ensures
        final(d).announce_seq == old(d).announce_seq + 1,
        due <==> (old(d).announce_seq + 1) % 100 == 0,
        final(d).channels == old(d).channels && final(d).peers() == old(d).peers(),
{
}

/// A new daemon knows nobody and holds nothing; its router has its own address.
pub proof fn law_new_daemon(keys: Keys, d: Daemon)
    requires
        call_ensures(Daemon::new, (keys,), d),
    ensures
        d.keys == keys,
        d.peers().dom().len() == 0,
        d.channels@.dom().len() == 0 && d.pending_channels@.dom().len() == 0,
        d.router@.dom().len() == 0,
        d.router.local_addr@ == primitives::sha256_digest(keys.identity()).subrange(0, 16),
        d.forwarder.cs.contents().len() == 0 && d.forwarder.cs.room() == 1000,
        d.forwarder.fib@.len() == 0 && d.forwarder.key_store@.dom().len() == 0,
        d.router.route_timeout.total() == 300_000_000_000,
{
}

/// A link of a daemon is that of its `daemon` destination to the peer, with packets of up to
/// 500 bytes, and nothing waits in it.
pub proof fn law_link_of_daemon(l: Link, keys: Keys, remote: RnsAddress)
    requires
        daemon_link(l, keys, remote),
    ensures
        l.local.hash@ == crate::destination::destination_hash(keys.identity(), "daemon"@),
        l.remote == remote,
        l.config.mtu == 500,
        l.config.handshake_timeout_ms == 30_000,
        l.inbound@.len() == 0 && l.outbound@.len() == 0,
{
}

/// A peer that is registered is known with its key, and others as before.
pub proof fn law_registered_peer_is_known(
    d: &mut Daemon,
    addr: RnsAddress,
    key: [u8; 32],
    after: &Daemon,
    known: bool,
)
    requires
        old(d).wf(),
        call_ensures(Daemon::register_peer, (d, addr, key), ()),
        *after == *final(d),
        call_ensures(Daemon::knows_peer, (after, &addr), known),
    ensures
        known,
        after.peers()[addr@] == key@,
        forall|k: Seq<u8>|
            k != addr@ ==> (#[trigger] after.peers().dom().contains(k) <==> old(
                d).peers().dom().contains(k)),
        after.channels == old(d).channels,
{
}

/// Content that is published is found under its name.
pub proof fn law_published_is_found(d: &mut Daemon, x: Data, now: TimeSpan)
    requires
        old(d).wf(),
        call_ensures(Daemon::publish, (d, x, now), ()),
    ensures
        crate::icn::cs::found(final(d).forwarder.cs.contents(), x@.name) matches Some(c)
            && c.data@ == x@,
        final(d).channels == old(d).channels,
{
    forwarder::law_received_data_is_cached(d.forwarder.cs, final(d).forwarder.cs, x@, now);
}

} // verus!
