//! What a daemon does on command, and with whole frames.

use crate::channel;
use crate::channel::{Channel, ChannelError, SystemMessageType};
use crate::crypto::primitives;
use crate::daemon::announce::Announced;
use crate::daemon::error::DaemonError;
use crate::daemon::link_request;
use crate::daemon::node;
use crate::daemon::node::{Daemon, Outgoing, Reaction};
use crate::destination::Destination;
use crate::icn::data::{Data, DataView};
use crate::icn::forwarder;
use crate::icn::forwarder::Forwarder;
use crate::identity::{Keys, RnsAddress};
use crate::packet;
use crate::packet::{Packet, PacketModel};
use crate::pieces;
use crate::span::TimeSpan;
use crate::text;
use crate::transport::link;
use crate::transport::resource;
use crate::transport::resource::{Resource, ResourceConfig, Segment};
use crate::transport::{Link, LinkState, TransportError};
use crate::wire;
use vstd::prelude::*;
use vstd::utf8;

verus! {

/// What a frame led to.
pub enum Handled {
    /// There is nothing more to do.
    Nothing,
    /// An announce was taken in.
    Announce(Announced),
    /// These bytes are to be sent.
    Send(Outgoing),
    /// These messages came in on a link, and are to be handled in order.
    Messages(Vec<Vec<u8>>),
    /// Content, or a request for content, was taken in.
    Content(Reaction),
}

/// What a packet is taken for.
pub enum FrameKind {
    Announce,
    Proof,
    LinkRequest,
    LinkData,
    /// Content, or a request for content.
    Other,
}

/// What a packet is taken for.
pub open spec fn kind_of(p: PacketModel) -> FrameKind {
    if p.packet_type == packet::ANNOUNCE {
        FrameKind::Announce
    } else if p.packet_type == packet::PROOF {
        FrameKind::Proof
    } else if p.packet_type == packet::LINKREQUEST {
        FrameKind::LinkRequest
    } else if p.packet_type == packet::DATA && p.header_type == packet::HEADER_2
        && p.transport_id is Some {
        FrameKind::LinkData
    } else {
        FrameKind::Other
    }
}

/// The bytes of each segment of some data, of the default size.
pub open spec fn segment_records(data: Seq<u8>) -> Seq<Seq<u8>> {
    let size = resource::DEFAULT_SEGMENT_SIZE as nat;
    Seq::new(
        pieces::piece_count(data.len(), size),
        |i: int| resource::segment_of(data, size, i as nat).record(),
    )
}

/// The serialized segments of some data, to be sent in order.
pub fn resource_segments(data: Vec<u8>) -> (out: Vec<Vec<u8>>)
    ensures
        wire::all_bytes(out@) == segment_records(data@),
{
    let r: Resource = Resource::new_for_sending(data, ResourceConfig::default());
    let segments: &[Segment] = r.all_segments();
    let mut out: Vec<Vec<u8>> = Vec::new();
    let mut i: usize = 0;
    proof {
        assert(resource::segment_models(r.segments@).len() == segments@.len());
    }
    while i < segments.len()
        invariant
            i <= segments@.len(),
            segments@ == r.segments@,
            out@.len() == i,
            forall|j: int| 0 <= j < i ==> (#[trigger] out@[j])@ == segments@[j]@.record(),
        decreases segments@.len() - i,
    {
        out.push(segments[i].to_bytes());
        i = i + 1;
    }
    proof {
        let expected = segment_records(data@);
        assert forall|j: int| 0 <= j < expected.len() implies wire::all_bytes(out@)[j]
            == expected[j] by {
            assert(resource::segment_models(r.segments@)[j] == resource::segment_of(
                data@,
                resource::DEFAULT_SEGMENT_SIZE as nat,
                j as nat,
            ));
        }
        assert(wire::all_bytes(out@) =~= expected);
    }
    out
}

impl Daemon {
    /// What beginning a link to a peer leads to. Where there is a link, or one is
    /// pending, nothing happens; otherwise a new link is pending, and its proof, which
    /// this node's key accepts, is to be sent.
    pub open spec fn connecting(
        before: Daemon,
        after: Daemon,
        remote: RnsAddress,
        r: Result<Option<Outgoing>, DaemonError>,
    ) -> bool {
        if before.channels@.dom().contains(remote@) || before.pending_channels@.dom().contains(
            remote@,
        ) {
            after == before && r == Ok::<Option<Outgoing>, DaemonError>(None)
        } else {
            let c = after.pending_channels@[remote@];
            let id = link::xor_16(c.link.local.hash@, remote@);
            &&& after == Daemon { pending_channels: after.pending_channels, ..before }
            &&& after.pending_channels@.dom().contains(remote@)
            &&& after.pending_channels@ == before.pending_channels@.insert(remote@, c)
            &&& node::fresh_channel(c)
            &&& node::daemon_link(c.link, before.keys, remote)
            &&& c.link.state == LinkState::Handshaking
            &&& c.link.transport_id@ == id
            &&& c.link.remote_encryption_key is None
            &&& c.link.remote_signing_key is None
            &&& c.link.initiator
            &&& (r matches Ok(Some(out)) && out.to == remote && out.bytes@ == packet::packet_bytes(
                link::on_link(
                    remote@,
                    id,
                    packet::PROOF,
                    packet::FLAG_SET,
                    packet::LINKPROOF,
                    primitives::sha256_digest(id) + primitives::ed25519_signature(
                        before.keys.signing@,
                        id,
                    ),
                ),
            ) && node::accepted_by(before.keys.identity(), out.bytes@))
        }
    }

    /// Begins a link to a peer. What is returned is to be sent.
    pub fn connect(&mut self, remote: RnsAddress) -> (r: Result<Option<Outgoing>, DaemonError>)
        requires
            old(self).wf(),
        ensures
            final(self).wf(),
            Self::connecting(*old(self), *final(self), remote, r),
    {
        if self.channels.contains(&remote) || self.pending_channels.contains(&remote) {
            return Ok(None);
        }
        let local: Destination = Destination::singleton(self.keys, "daemon", Vec::new());
        let mut channel: Channel = Channel::new(Link::new(local, remote));
        let p: Packet = match channel.link_mut().establish() {
            Ok(p) => p,
            Err(e) => {
                return Err(DaemonError::Transport(e));
            },
        };
        proof {
            packet::law_packet_roundtrip(p@);
        }
        self.pending_channels.insert(remote, channel);
        Ok(Some(Outgoing { to: remote, bytes: p.to_bytes() }))
    }

    /// Makes the key of a peer known, given as 64 hexadecimal digits.
    pub fn seed_peer(&mut self, addr: RnsAddress, key_hex: &str) -> (r: Result<(), DaemonError>)
        requires
            old(self).wf(),
        ensures
            final(self).wf(),
            (match text::hex_bytes(utf8::encode_utf8(key_hex@)) {
                None => *final(self) == *old(self) && (r matches Err(DaemonError::Other(m)) && m@
                    == "invalid key hex: "@ + text::hex_complaint(key_hex@)),
                Some(b) => if b.len() != 32 {
                    *final(self) == *old(self) && (r matches Err(DaemonError::Other(m)) && m@
                        == "key must be 32 bytes (64 hex chars), got "@ + text::decimal(b.len()))
                } else {
                    &&& r is Ok
                    &&& final(self).peers() == old(self).peers().insert(addr@, b)
                    &&& *final(self) == (Daemon { peer_keys: final(self).peer_keys, ..*old(self) })
                },
            }),
    {
        match text::hex_decode(key_hex) {
            Err(e) => Err(DaemonError::Other(text::join("invalid key hex: ", e.as_str()))),
            Ok(bytes) => {
                if bytes.len() != 32 {
                    return Err(
                        DaemonError::Other(
                            text::join(
                                "key must be 32 bytes (64 hex chars), got ",
                                text::to_decimal(bytes.len() as u64).as_str(),
                            ),
                        ),
                    );
                }
                let key: [u8; 32] = wire::read_32(bytes.as_slice(), 0);
                assert(key@ =~= bytes@);
                self.register_peer(addr, key);
                Ok(())
            },
        }
    }

    /// What sending a message on a link leads to: it needs an established link; what
    /// the channel makes of the message is to be sent.
    pub open spec fn sending(
        before: Daemon,
        after: Daemon,
        remote: RnsAddress,
        message: Seq<u8>,
        ephemeral: Seq<u8>,
        iv: Seq<u8>,
        r: Result<Outgoing, DaemonError>,
    ) -> bool {
        if !before.channels@.dom().contains(remote@) {
            after == before && r == Err::<Outgoing, DaemonError>(DaemonError::NoLink)
        } else {
            &&& after == Daemon { channels: after.channels, ..before }
            &&& after.channels@.dom().contains(remote@)
            &&& after.channels@ == before.channels@.insert(remote@, after.channels@[remote@])
            &&& exists|sent: Result<Packet, ChannelError>|
                #[trigger] channel::channel_send_effect(
                    before.channels@[remote@],
                    after.channels@[remote@],
                    SystemMessageType::SMT_CHANNEL_DATA,
                    message,
                    ephemeral,
                    iv,
                    sent,
                ) && (match sent {
                    Ok(p) => r matches Ok(out) && out.to == remote && out.bytes@
                        == packet::packet_bytes(p@),
                    Err(e) => r == Err::<Outgoing, DaemonError>(DaemonError::Channel(e)),
                })
        }
    }

    /// Sends a message on a link, with fresh randomness where the link encrypts. What is
    /// returned is to be sent.
    pub fn send_over_link(&mut self, remote: RnsAddress, message: Vec<u8>) -> (r: Result<
        Outgoing,
        DaemonError,
    >)
        requires
            old(self).wf(),
        ensures
            final(self).wf(),
            exists|ephemeral: Seq<u8>, iv: Seq<u8>|
                ephemeral.len() == 32 && iv.len() == 16 && #[trigger] Self::sending(
                    *old(self),
                    *final(self),
                    remote,
                    message@,
                    ephemeral,
                    iv,
                    r,
                ),
    {
        let ephemeral: [u8; 32] = primitives::random_32();
        let iv: [u8; 16] = primitives::os_random_16();
        let r: Result<Outgoing, DaemonError> = self.send_over_link_with(
            remote,
            message,
            &ephemeral,
            &iv,
        );
        assert(Self::sending(*old(self), *self, remote, message@, ephemeral@, iv@, r));
        r
    }

    /// Sends a message on a link, with a given ephemeral secret and IV where the link
    /// encrypts.
    pub fn send_over_link_with(
        &mut self,
        remote: RnsAddress,
        message: Vec<u8>,
        ephemeral: &[u8; 32],
        iv: &[u8; 16],
    ) -> (r: Result<Outgoing, DaemonError>)
        requires
            old(self).wf(),
        ensures
            final(self).wf(),
            Self::sending(*old(self), *final(self), remote, message@, ephemeral@, iv@, r),
    {
        let mut channel: Channel = match self.channels.remove(&remote) {
            Some(c) => c,
            None => {
                return Err(DaemonError::NoLink);
            },
        };
        let ghost before = channel;
        proof {
            assert(old(self).channels@.dom().contains(remote@));
        }
        let sent: Result<Packet, ChannelError> = channel.send_typed_with(
            SystemMessageType::SMT_CHANNEL_DATA,
            message,
            ephemeral,
            iv,
        );
        self.channels.insert(remote, channel);
        proof {
            assert(self.channels@ =~= old(self).channels@.insert(remote@, channel));
            assert(channel::channel_send_effect(
                before,
                channel,
                SystemMessageType::SMT_CHANNEL_DATA,
                message@,
                ephemeral@,
                iv@,
                sent,
            ));
        }
        match sent {
            Ok(p) => Ok(Outgoing { to: remote, bytes: p.to_bytes() }),
            Err(e) => Err(DaemonError::Channel(e)),
        }
    }

    /// What publishing content without a proof, under the name of a producer, leads to.
    pub open spec fn publishing(
        before: Daemon,
        after: Daemon,
        name: Seq<char>,
        content: Seq<u8>,
        now: TimeSpan,
        r: Result<(), String>,
    ) -> bool {
        match text::hex_bytes(utf8::encode_utf8(name)) {
            Some(b) => if b.len() == 32 {
                &&& r is Ok
                &&& exists|d: DataView|
                    #[trigger] forwarder::cached_as(
                        before.forwarder.cs,
                        after.forwarder.cs,
                        d,
                        now,
                    ) && node::is_unsigned(d, (seq![b], None), content)
                &&& after.forwarder == (Forwarder { cs: after.forwarder.cs, ..before.forwarder })
                &&& after == (Daemon { forwarder: after.forwarder, ..before })
            } else {
                bad_name(r) && after == before
            },
            None => bad_name(r) && after == before,
        }
    }

    /// Publishes content of a producer, given by 64 hexadecimal digits, without a proof.
    pub fn publish_named(&mut self, name: &str, content: Vec<u8>, now: TimeSpan) -> (r: Result<
        (),
        String,
    >)
        requires
            old(self).wf(),
        ensures
            final(self).wf(),
            Self::publishing(*old(self), *final(self), name@, content@, now, r),
    {
        match text::hex_decode(name) {
            Ok(bytes) => {
                if bytes.len() == 32 {
                    let producer: [u8; 32] = wire::read_32(bytes.as_slice(), 0);
                    assert(producer@ =~= bytes@);
                    let d: Data = node::unsigned_data(producer, content);
                    self.publish(d, now);
                    return Ok(());
                }
            },
            Err(_) => {},
        }
        Err("Invalid name: must be 64 hex chars (32 bytes producer hash)".to_owned())
    }

    /// What a frame leads to: a packet by its kind; what is no packet, or of no kind, as
    /// content or a request for content.
    pub open spec fn frame_taken(
        before: Daemon,
        after: Daemon,
        from: RnsAddress,
        frame: Seq<u8>,
        waiter: u64,
        now: TimeSpan,
        r: Result<Handled, DaemonError>,
    ) -> bool {
        match packet::parsed_packet(frame) {
            Err(_) => Self::frame_content(before, after, frame, waiter, now, r),
            Ok(p) => match kind_of(p) {
                FrameKind::Announce => exists|a: Option<Announced>|
                    #[trigger] Self::announce_taken(before, after, from, p, now, a) && (match a {
                        Some(x) => r == Ok::<Handled, DaemonError>(Handled::Announce(x)),
                        None => r == Ok::<Handled, DaemonError>(Handled::Nothing),
                    }),
                FrameKind::Proof => exists|
                    sender: Option<RnsAddress>,
                    out: Result<Option<Outgoing>, DaemonError>,
                |
                    #[trigger] Self::proof_taken(before, after, from, p, sender, out) && (
                    match out {
                        Ok(Some(o)) => r == Ok::<Handled, DaemonError>(Handled::Send(o)),
                        Ok(None) => r == Ok::<Handled, DaemonError>(Handled::Nothing),
                        Err(e) => r == Err::<Handled, DaemonError>(e),
                    }),
                FrameKind::LinkRequest => exists|secret: Seq<u8>, out: Option<Outgoing>|
                    secret.len() == 32 && #[trigger] Self::request_taken(
                        before,
                        after,
                        from,
                        p,
                        secret,
                        out,
                    ) && (match out {
                        Some(o) => r == Ok::<Handled, DaemonError>(Handled::Send(o)),
                        None => r == Ok::<Handled, DaemonError>(Handled::Nothing),
                    }),
                FrameKind::LinkData => exists|out: Result<Vec<Vec<u8>>, DaemonError>|
                    #[trigger] Self::link_data_taken(before, after, from, p, out) && (match out {
                        Ok(v) => r == Ok::<Handled, DaemonError>(Handled::Messages(v)),
                        Err(e) => r == Err::<Handled, DaemonError>(e),
                    }),
                FrameKind::Other => Self::frame_content(before, after, frame, waiter, now, r),
            },
        }
    }

    /// What a frame leads to that is taken for content.
    pub open spec fn frame_content(
        before: Daemon,
        after: Daemon,
        frame: Seq<u8>,
        waiter: u64,
        now: TimeSpan,
        r: Result<Handled, DaemonError>,
    ) -> bool {
        exists|out: Result<Reaction, DaemonError>|
            #[trigger] Self::content_taken(before, after, frame, waiter, now, out) && (match out {
                Ok(x) => r == Ok::<Handled, DaemonError>(Handled::Content(x)),
                Err(e) => r == Err::<Handled, DaemonError>(e),
            })
    }

    fn content_frame(&mut self, frame: &[u8], waiter: u64, now: TimeSpan) -> (r: Result<
        Handled,
        DaemonError,
    >)
        requires
            old(self).wf(),
        ensures
            final(self).wf(),
            Self::frame_content(*old(self), *final(self), frame@, waiter, now, r),
    {
        let out: Result<Reaction, DaemonError> = self.handle_icn_frame(frame, waiter, now);
        assert(Self::content_taken(*old(self), *self, frame@, waiter, now, out));
        match out {
            Ok(x) => Ok(Handled::Content(x)),
            Err(e) => Err(e),
        }
    }

    /// Takes in a frame of a peer.
    pub fn handle_frame(&mut self, from: RnsAddress, frame: &[u8], waiter: u64, now: TimeSpan) -> (r:
        Result<Handled, DaemonError>)
        requires
            old(self).wf(),
        ensures
            final(self).wf(),
            Self::frame_taken(*old(self), *final(self), from, frame@, waiter, now, r),
    {
        let p: Packet = match Packet::from_bytes(frame) {
            Ok(p) => p,
            Err(_) => {
                return self.content_frame(frame, waiter, now);
            },
        };
        if p.packet_type == packet::ANNOUNCE {
            let a: Option<Announced> = self.handle_announce(from, &p, now);
            assert(Self::announce_taken(*old(self), *self, from, p@, now, a));
            return match a {
                Some(x) => Ok(Handled::Announce(x)),
                None => Ok(Handled::Nothing),
            };
        }
        if p.packet_type == packet::PROOF {
            let out: Result<Option<Outgoing>, DaemonError> = self.handle_proof(from, &p);
            proof {
                let sender = choose|sender: Option<RnsAddress>|
                    #[trigger] Self::proof_taken(*old(self), *self, from, p@, sender, out);
                assert(Self::proof_taken(*old(self), *self, from, p@, sender, out));
            }
            return match out {
                Ok(Some(o)) => Ok(Handled::Send(o)),
                Ok(None) => Ok(Handled::Nothing),
                Err(e) => Err(e),
            };
        }
        if p.packet_type == packet::LINKREQUEST {
            let out: Option<Outgoing> = self.handle_linkrequest(from, &p);
            proof {
                let secret = choose|secret: Seq<u8>|
                    secret.len() == 32 && #[trigger] Self::request_taken(
                        *old(self),
                        *self,
                        from,
                        p@,
                        secret,
                        out,
                    );
                assert(Self::request_taken(*old(self), *self, from, p@, secret, out));
            }
            return match out {
                Some(o) => Ok(Handled::Send(o)),
                None => Ok(Handled::Nothing),
            };
        }
        if p.packet_type == packet::DATA && p.header_type == packet::HEADER_2
            && p.transport_id.is_some() {
            let out: Result<Vec<Vec<u8>>, DaemonError> = self.handle_link_data(from, &p);
            assert(Self::link_data_taken(*old(self), *self, from, p@, out));
            return match out {
                Ok(v) => Ok(Handled::Messages(v)),
                Err(e) => Err(e),
            };
        }
        self.content_frame(frame, waiter, now)
    }
}

/// The error of a name that does not stand for a producer.
pub open spec fn bad_name(r: Result<(), String>) -> bool {
    r matches Err(m) && m@ == "Invalid name: must be 64 hex chars (32 bytes producer hash)"@
}

/// Two daemons that know each other's keys come to share a link: the proof with which
/// one begins it establishes it at the other, and the answer establishes it at the
/// first. Both hold it under the same id, and no message has been sent on it.
pub proof fn law_daemons_link(
    a: Daemon,
    asking: Daemon,
    linked: Daemon,
    b: Daemon,
    answering: Daemon,
    a_addr: RnsAddress,
    b_addr: RnsAddress,
    request: Outgoing,
    asked: PacketModel,
    asked_by: Option<RnsAddress>,
    answer: Result<Option<Outgoing>, DaemonError>,
    answered: PacketModel,
    answered_by: Option<RnsAddress>,
    r: Result<Option<Outgoing>, DaemonError>,
)
    requires
        Daemon::connecting(a, asking, b_addr, Ok(Some(request))),
        packet::parsed_packet(request.bytes@) == Ok::<PacketModel, Seq<char>>(asked),
        b.peers().dom().contains(a_addr@),
        b.peers()[a_addr@] == a.keys.identity(),
        Daemon::proof_taken(b, answering, a_addr, asked, asked_by, answer),
        answer matches Ok(Some(out)) ==> packet::parsed_packet(out.bytes@) == Ok::<
            PacketModel,
            Seq<char>,
        >(answered),
        a.peers().dom().contains(b_addr@),
        a.peers()[b_addr@] == b.keys.identity(),
        b_addr@ != a.address(),
        Daemon::proof_taken(asking, linked, b_addr, answered, answered_by, r),
    ensures
        answer matches Ok(Some(out)) && out.to == a_addr,
        answering.channels@.dom().contains(a_addr@),
        answering.channels@[a_addr@].link.state == LinkState::Established,
        r == Ok::<Option<Outgoing>, DaemonError>(None),
        linked.channels@.dom().contains(b_addr@),
        linked.channels@[b_addr@].link.state == LinkState::Established,
        !linked.pending_channels@.dom().contains(b_addr@),
        in_step(linked.channels@[b_addr@], answering.channels@[a_addr@]),
        in_step(answering.channels@[a_addr@], linked.channels@[b_addr@]),
{
    let c = asking.pending_channels@[b_addr@];
    let id = link::xor_16(c.link.local.hash@, b_addr@);
    packet::law_packet_roundtrip(
        link::on_link(
            b_addr@,
            id,
            packet::PROOF,
            packet::FLAG_SET,
            packet::LINKPROOF,
            primitives::sha256_digest(id) + primitives::ed25519_signature(a.keys.signing@, id),
        ),
    );
    let d = answering.channels@[a_addr@];
    packet::law_packet_roundtrip(
        node::proof_response(b.keys, a_addr@, d.link.transport_id@),
    );
}

/// Whether all that one end of a link sent has arrived at the other and was taken out.
pub open spec fn in_step(sender: Channel, receiver: Channel) -> bool {
    &&& link::ends_of_one_link(sender.link, receiver.link)
    &&& receiver.link.inbound@.len() == 0
    &&& receiver.receiving().next == sender.outgoing_seq
    &&& receiver.receiving().ahead == Map::<u32, Seq<u8>>::empty()
    &&& receiver.receiving().ready == Seq::<Seq<u8>>::empty()
    &&& receiver.receiving().handled == Set::<u16>::empty()
}

/// A message that one of two linked daemons sends comes out at the other, alone and as it
/// was sent; and the two are in step again, so that the next one does, too. What goes the
/// other way is not touched.
pub proof fn law_daemons_talk(
    a: Daemon,
    after_a: Daemon,
    b: Daemon,
    after_b: Daemon,
    a_addr: RnsAddress,
    b_addr: RnsAddress,
    message: Seq<u8>,
    ephemeral: Seq<u8>,
    iv: Seq<u8>,
    out: Outgoing,
    p: PacketModel,
    r: Result<Vec<Vec<u8>>, DaemonError>,
)
    requires
        a.channels@.dom().contains(b_addr@),
        b.channels@.dom().contains(a_addr@),
        in_step(a.channels@[b_addr@], b.channels@[a_addr@]),
        Daemon::sending(a, after_a, b_addr, message, ephemeral, iv, Ok(out)),
        packet::parsed_packet(out.bytes@) == Ok::<PacketModel, Seq<char>>(p),
        Daemon::link_data_taken(b, after_b, a_addr, p, r),
    ensures
        out.to == b_addr,
        kind_of(p) is LinkData,
        r matches Ok(v) && wire::all_bytes(v@) == seq![message],
        in_step(after_a.channels@[b_addr@], after_b.channels@[a_addr@]),
        in_step(b.channels@[a_addr@], a.channels@[b_addr@]) ==> in_step(
            after_b.channels@[a_addr@],
            after_a.channels@[b_addr@],
        ),
{
    let c = a.channels@[b_addr@];
    let c2 = after_a.channels@[b_addr@];
    let d = b.channels@[a_addr@];
    let d2 = after_b.channels@[a_addr@];
    let t = SystemMessageType::SMT_CHANNEL_DATA;
    let sent = choose|sent: Result<Packet, ChannelError>|
        #[trigger] channel::channel_send_effect(c, c2, t, message, ephemeral, iv, sent) && (
        match sent {
            Ok(p) => Ok::<Outgoing, DaemonError>(out) matches Ok(out) && out.to == b_addr
                && out.bytes@ == packet::packet_bytes(p@),
            Err(e) => Ok::<Outgoing, DaemonError>(out) == Err::<Outgoing, DaemonError>(
                DaemonError::Channel(e),
            ),
        });
    let q = sent->Ok_0;
    assert(q@.fits());
    packet::law_packet_roundtrip(q@);
    assert(p == q@);
    channel::law_channel_delivers(c, c2, d, t, message, ephemeral, iv, q);
    let s = d.receiving();
    let step = channel::Receiving {
        next: channel::after(s.next),
        ready: s.ready.push(message),
        ..s
    };
    assert(channel::settled(step) == step);
    assert(step.ready =~= seq![message]);
    assert(wire::all_bytes(d2.link.inbound@).len() == 0);
}

/// What a frame is goes by the type of its packet. A data packet is one of a link only
/// where it names the link.
pub proof fn law_kinds(p: PacketModel)
    ensures
        kind_of(p) is Announce <==> p.packet_type == 1,
        kind_of(p) is LinkRequest <==> p.packet_type == 2,
        kind_of(p) is Proof <==> p.packet_type == 3,
        kind_of(p) is LinkData <==> (p.packet_type == 0 && p.header_type == 1
            && p.transport_id is Some),
{
}

/// A link to a peer that is neither linked nor being linked is begun: it is pending, and a
/// proof of its identifier goes to the peer, that this node's key accepts. A link that is
/// there, or pending, is not begun again.
pub proof fn law_connect_begins_link(
    before: Daemon,
    after: Daemon,
    remote: RnsAddress,
    r: Result<Option<Outgoing>, DaemonError>,
)
    requires
        Daemon::connecting(before, after, remote, r),
    ensures
        before.channels@.dom().contains(remote@) || before.pending_channels@.dom().contains(remote@)
            ==> after == before && r == Ok::<Option<Outgoing>, DaemonError>(None),
        !before.channels@.dom().contains(remote@) && !before.pending_channels@.dom().contains(
            remote@,
        ) ==> {
            let l = after.pending_channels@[remote@].link;
            &&& after.pending_channels@.dom().contains(remote@)
            &&& l.state == LinkState::Handshaking
            &&& l.initiator
            &&& l.remote == remote
            &&& after.channels == before.channels
            &&& forall|k: Seq<u8>|
                k != remote@ && #[trigger] before.pending_channels@.dom().contains(k)
                    ==> after.pending_channels@[k] == before.pending_channels@[k]
            &&& (r matches Ok(Some(out)) && out.to == remote && (packet::parsed_packet(out.bytes@)
                matches Ok(p) && p.packet_type == packet::PROOF && p.context == packet::LINKPROOF
                && p.transport_id == Some(l.transport_id@) && p.destination_hash == remote@
                && p.data.len() == 96 && p.data.subrange(0, 32) == primitives::sha256_digest(
                l.transport_id@,
            ) && primitives::ed25519_accepts(
                before.keys.identity(),
                l.transport_id@,
                p.data.subrange(32, 96),
            )))
        },
{
    if !before.channels@.dom().contains(remote@) && !before.pending_channels@.dom().contains(
        remote@,
    ) {
        let l = after.pending_channels@[remote@].link;
        let id = l.transport_id@;
        let m = link::on_link(
            remote@,
            id,
            packet::PROOF,
            packet::FLAG_SET,
            packet::LINKPROOF,
            primitives::sha256_digest(id) + primitives::ed25519_signature(
                before.keys.signing@,
                id,
            ),
        );
        packet::law_packet_roundtrip(m);
    }
}

/// Without a link to a peer nothing is sent to it, and nothing changes.
pub proof fn law_no_link_no_message(
    before: Daemon,
    after: Daemon,
    remote: RnsAddress,
    message: Seq<u8>,
    ephemeral: Seq<u8>,
    iv: Seq<u8>,
    r: Result<Outgoing, DaemonError>,
)
    requires
        Daemon::sending(before, after, remote, message, ephemeral, iv, r),
    ensures
        !before.channels@.dom().contains(remote@) ==> after == before && r == Err::<
            Outgoing,
            DaemonError,
        >(DaemonError::NoLink),
        r matches Ok(out) ==> out.to == remote && before.channels@.dom().contains(remote@),
        forall|k: Seq<u8>|
            k != remote@ && #[trigger] before.channels@.dom().contains(k) ==> after.channels@[k]
                == before.channels@[k],
        after.pending_channels == before.pending_channels,
        after.forwarder == before.forwarder,
{
}

/// Content that is published under a producer is then found in the content store under the
/// producer's name, with that content. A name that is not 32 bytes in hexadecimal is
/// refused, and nothing changes.
pub proof fn law_published_is_found(
    before: Daemon,
    after: Daemon,
    name: Seq<char>,
    content: Seq<u8>,
    now: TimeSpan,
    r: Result<(), String>,
)
    requires
        before.wf(),
        Daemon::publishing(before, after, name, content, now, r),
    ensures
        r is Ok <==> (text::hex_bytes(utf8::encode_utf8(name)) matches Some(b) && b.len() == 32),
        r is Err ==> after == before,
        r is Ok ==> {
            let n: (Seq<Seq<u8>>, Option<Seq<u8>>) = (
                seq![text::hex_bytes(utf8::encode_utf8(name))->0],
                None,
            );
            crate::icn::cs::found(after.forwarder.cs.contents(), n) matches Some(c)
                && c.data@.content == content && c.data@.name == n
                && c.data@.metadata.content_hash == Some(primitives::blake3_digest(content))
        },
        after.channels == before.channels,
        after.peers() == before.peers(),
{
    if r is Ok {
        let b = text::hex_bytes(utf8::encode_utf8(name))->0;
        let d = choose|d: DataView|
            #[trigger] forwarder::cached_as(before.forwarder.cs, after.forwarder.cs, d, now)
                && node::is_unsigned(d, (seq![b], None), content);
        forwarder::law_received_data_is_cached(before.forwarder.cs, after.forwarder.cs, d, now);
    }
}

/// A frame is dealt with by what it is: what comes of an announce, of a proof, of a link
/// request and of a packet on a link is told apart in the result; all else is content.
pub proof fn law_frame_is_dispatched(
    before: Daemon,
    after: Daemon,
    from: RnsAddress,
    frame: Seq<u8>,
    waiter: u64,
    now: TimeSpan,
    r: Result<Handled, DaemonError>,
    p: PacketModel,
)
    requires
        Daemon::frame_taken(before, after, from, frame, waiter, now, r),
    ensures
        packet::parsed_packet(frame) == Ok::<PacketModel, Seq<char>>(p) && p.packet_type == 1
            && p.data.len() >= 32 ==> (r matches Ok(Handled::Announce(a))
            && after.peers().dom().contains(a.address@) && after.peers()[a.address@]
            == a.signing_key@),
        packet::parsed_packet(frame) == Ok::<PacketModel, Seq<char>>(p) && p.packet_type == 1
            && p.data.len() < 32 ==> r == Ok::<Handled, DaemonError>(Handled::Nothing) && after
            == before,
        packet::parsed_packet(frame) == Ok::<PacketModel, Seq<char>>(p) && p.packet_type == 2 && (
        p.data.len() < 64 || !before.peers().dom().contains(from@)) ==> r == Ok::<
            Handled,
            DaemonError,
        >(Handled::Nothing) && after == before,
        packet::parsed_packet(frame) == Ok::<PacketModel, Seq<char>>(p) && p.packet_type == 2
            && p.data.len() >= 64 && before.peers().dom().contains(from@) ==> (r matches Ok(
            Handled::Send(out),
        ) && out.to == from && after.channels@.dom().contains(from@)),
        packet::parsed_packet(frame) == Ok::<PacketModel, Seq<char>>(p) && p.packet_type == 0
            && p.header_type == 1 && p.transport_id is Some ==> ((r matches Ok(Handled::Messages(_)))
            || r is Err),
        packet::parsed_packet(frame) is Err ==> ((r matches Ok(Handled::Content(_))) || r is Err),
{
    if packet::parsed_packet(frame) == Ok::<PacketModel, Seq<char>>(p) && p.packet_type == 1 {
        let a = choose|a: Option<Announced>|
            #[trigger] Daemon::announce_taken(before, after, from, p, now, a) && (match a {
                Some(x) => r == Ok::<Handled, DaemonError>(Handled::Announce(x)),
                None => r == Ok::<Handled, DaemonError>(Handled::Nothing),
            });
        node::law_announce_registers(before, after, from, p, now, a);
        crate::daemon::announce::law_announce_places(from@, p.data);
    }
}

/// What is sent for a resource are its segments, in order, as they are read back: each
/// tells the digest of the data, its place and the number of all, and the segments' data
/// are the data, 1024 bytes each but for the last.
pub proof fn law_resource_is_sent(data: Seq<u8>, i: int)
    requires
        pieces::piece_count(data.len(), 1024) <= u32::MAX,
        0 <= i < segment_records(data).len(),
        primitives::sha256_digest(data).len() <= u64::MAX,
        primitives::sha256_digest(pieces::piece(data, 1024, i as nat)).len() <= u64::MAX,
    ensures
        crate::codec::segment_fields(segment_records(data)[i]) matches Some(f) && f.0
            == primitives::sha256_digest(data) && f.1 == i && f.2 == segment_records(data).len()
            && f.4 == primitives::sha256_digest(f.3) && (i + 1 < segment_records(data).len()
            ==> f.3.len() == 1024) && 0 < f.3.len() <= 1024 && forall|j: int|
            0 <= j < f.3.len() ==> #[trigger] f.3[j] == data[i * 1024 + j],
        (segment_records(data).len() - 1) * 1024 < data.len() <= segment_records(data).len() * 1024,
{
    let s = resource::segment_of(data, 1024, i as nat);
    pieces::law_piece_sizes(data, 1024, i as nat);
    resource::law_segment_of(data, 1024, i as nat);
    crate::codec::lemma_segment_record(s.resource_hash, s.index, s.total, s.data, s.checksum);
}

} // verus!
