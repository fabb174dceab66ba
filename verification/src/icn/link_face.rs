//! A face over a link.
//!
//! Interests and Data travel as messages of the link. The packets that carry them are
//! handed to the caller, who routes them; packets that come in are delivered here.

use crate::icn::data;
use crate::icn::data::{Data, DataView};
use crate::icn::face::{FaceCapabilities, FaceId};
use crate::icn::interest;
use crate::icn::interest::Interest;
use crate::packet;
use crate::packet::{Packet, PacketModel};
use crate::span::TimeSpan;
use crate::text;
use crate::transport::error;
use crate::transport::link;
use crate::transport::{Link, TransportError};
use crate::wire;
use vstd::prelude::*;

verus! {

/// A face over a link.
pub struct LinkFace {
    pub id: FaceId,
    pub link: Link,
}

/// What sending a message on a link leads to: the packet to be routed, or an error.
pub open spec fn transmitted(
    before: Link,
    after: Link,
    message: Seq<u8>,
    r: Result<Vec<u8>, String>,
) -> bool {
    exists|ephemeral: Seq<u8>, iv: Seq<u8>, sent: Result<Packet, TransportError>|
        ephemeral.len() == 32 && iv.len() == 16 && #[trigger] link::send_effect(
            before,
            after,
            message,
            ephemeral,
            iv,
            sent,
        ) && (match sent {
            Ok(p) => r matches Ok(b) && b@ == packet::packet_bytes(p@),
            Err(e) => r matches Err(m) && m@ == "send failed: "@ + error::transport_message(e@),
        })
}

impl LinkFace {
    /// A face over a link.
    pub fn new(id: FaceId, link: Link) -> (f: Self)
        ensures
            f == (LinkFace { id, link }),
    {
        LinkFace { id, link }
    }

    /// The identifier of the face.
    pub fn id(&self) -> (id: FaceId)
        ensures
            id == self.id,
    {
        self.id
    }

    /// The link.
    pub fn link(&self) -> (l: &Link)
        ensures
            *l == self.link,
    {
        &self.link
    }

    /// What the face can do.
    pub fn capabilities(&self) -> (c: FaceCapabilities)
        ensures
            c == (FaceCapabilities {
                disruption_tolerance: TimeSpan { secs: 3600, nanos: 0 },
                mtu: 500,
                is_local: false,
            }),
    {
        FaceCapabilities::over_link()
    }

    /// Takes in a packet for the link; its message can then be polled.
    pub fn deliver_packet(&mut self, bytes: &[u8]) -> (r: Result<(), String>)
        ensures
            final(self).id == old(self).id,
            (match packet::parsed_packet(bytes@) {
                Err(m) => (r matches Err(e) && e@ == "invalid packet: "@ + error::packet_message(
                    error::PacketFault::Invalid(m),
                )) && *final(self) == *old(self),
                Ok(p) => match old(self).link.delivered(p) {
                    Ok(m) => r is Ok && final(self).link == (Link {
                        inbound: final(self).link.inbound,
                        ..old(self).link
                    }) && wire::all_bytes(final(self).link.inbound@) == wire::all_bytes(
                        old(self).link.inbound@,
                    ).push(m),
                    Err(f) => (r matches Err(e) && e@ == "deliver failed: "@
                        + error::transport_message(f)) && *final(self) == *old(self),
                },
            }),
    {
        let packet: Packet = match Packet::from_bytes(bytes) {
            Ok(p) => p,
            Err(e) => {
                return Err(text::join("invalid packet: ", e.to_string().as_str()));
            },
        };
        match self.link.deliver(&packet) {
            Ok(_) => Ok(()),
            Err(e) => Err(text::join("deliver failed: ", e.to_string().as_str())),
        }
    }

    /// Sends a message: the packet to be routed.
    fn transmit(&mut self, message: Vec<u8>) -> (r: Result<Vec<u8>, String>)
        ensures
            final(self).id == old(self).id,
            transmitted(old(self).link, final(self).link, message@, r),
    {
        let sent: Result<Packet, TransportError> = self.link.send(message);
        proof {
            let (ephemeral, iv) = choose|ephemeral: Seq<u8>, iv: Seq<u8>|
                ephemeral.len() == 32 && iv.len() == 16 && #[trigger] link::send_effect(
                    old(self).link,
                    self.link,
                    message@,
                    ephemeral,
                    iv,
                    sent,
                );
            assert(link::send_effect(old(self).link, self.link, message@, ephemeral, iv, sent));
        }
        match sent {
            Ok(p) => Ok(p.to_bytes()),
            Err(e) => Err(text::join("send failed: ", e.to_string().as_str())),
        }
    }

    /// Sends an Interest: the packet to be routed. What comes back can be polled.
    pub fn express_interest(&mut self, interest: &Interest) -> (r: Result<Vec<u8>, String>)
        ensures
            final(self).id == old(self).id,
            transmitted(
                old(self).link,
                final(self).link,
                interest::interest_bytes(interest@),
                r,
            ),
    {
        self.transmit(interest.to_bytes())
    }

    /// Sends Data: the packet to be routed.
    pub fn send_data(&mut self, d: &Data) -> (r: Result<Vec<u8>, String>)
        ensures
            final(self).id == old(self).id,
            transmitted(old(self).link, final(self).link, data::data_bytes(d@), r),
    {
        self.transmit(d.to_bytes())
    }

    /// Takes the oldest message of the link, and returns it where it is Data. Other
    /// traffic is skipped.
    pub fn poll(&mut self) -> (r: Option<Data>)
        ensures
            final(self).id == old(self).id,
            (if old(self).link.inbound@.len() == 0 {
                r is None && *final(self) == *old(self)
            } else {
                &&& final(self).link == (Link {
                    inbound: final(self).link.inbound,
                    ..old(self).link
                })
                &&& final(self).link.inbound@ == old(self).link.inbound@.subrange(
                    1,
                    old(self).link.inbound@.len() as int,
                )
                &&& (match r {
                    Some(d) => data::holds_data(old(self).link.inbound@[0]@, d@),
                    None => data::data_fault(old(self).link.inbound@[0]@) is Some,
                })
            }),
    {
        match self.link.recv() {
            Some(bytes) => match Data::from_bytes(bytes.as_slice()) {
                Ok(d) => Some(d),
                Err(_) => None,
            },
            None => None,
        }
    }
}

/// Data that is sent on one face of a link is taken from the other: the packet is delivered
/// there, and where nothing else waits, it is the Data that is polled next.
pub proof fn law_data_crosses(
    near: &mut LinkFace,
    d: &Data,
    sent: Vec<u8>,
    far: &mut LinkFace,
    bytes: &[u8],
    r: Result<(), String>,
    reader: &mut LinkFace,
    got: Option<Data>,
)
    requires
        data::data_fits(d@),
        link::ends_of_one_link(old(near).link, old(far).link),
        call_ensures(LinkFace::send_data, (near, d), Ok(sent)),
        bytes@ == sent@,
        call_ensures(LinkFace::deliver_packet, (far, bytes), r),
        old(far).link.inbound@.len() == 0,
        *old(reader) == *final(far),
        call_ensures(LinkFace::poll, (reader,), got),
    ensures
        r is Ok,
        got matches Some(x) && x@.name == d@.name && x@.content == d@.content && x@.metadata
            == d@.metadata,
        final(reader).link.inbound@.len() == 0,
{
    lemma_message_crosses(*near, *final(near), data::data_bytes(d@), sent, *far);
    data::law_data_roundtrip(d@);
    let all = wire::all_bytes(reader.link.inbound@);
    assert(wire::all_bytes(far.link.inbound@) =~= Seq::<Seq<u8>>::empty());
    assert(all.len() == 1 && all[0] == data::data_bytes(d@));
    assert(reader.link.inbound@[0]@ == data::data_bytes(d@));
}

/// An Interest that is expressed on one face of a link comes in at the other, as its bytes,
/// which are read back as that Interest.
pub proof fn law_interest_crosses(
    near: &mut LinkFace,
    i: &Interest,
    sent: Vec<u8>,
    far: &mut LinkFace,
    bytes: &[u8],
    r: Result<(), String>,
)
    requires
        interest::interest_fits(i@),
        link::ends_of_one_link(old(near).link, old(far).link),
        call_ensures(LinkFace::express_interest, (near, i), Ok(sent)),
        bytes@ == sent@,
        call_ensures(LinkFace::deliver_packet, (far, bytes), r),
        old(far).link.inbound@.len() == 0,
    ensures
        r is Ok,
        final(far).link.inbound@.len() == 1,
        interest::parsed_interest(final(far).link.inbound@[0]@) matches Ok(x) && x == i@,
{
    lemma_message_crosses(*near, *final(near), interest::interest_bytes(i@), sent, *far);
    interest::law_interest_roundtrip(i@);
    let all = wire::all_bytes(final(far).link.inbound@);
    assert(wire::all_bytes(far.link.inbound@) =~= Seq::<Seq<u8>>::empty());
    assert(all.len() == 1 && all[0] == interest::interest_bytes(i@));
    assert(final(far).link.inbound@[0]@ == interest::interest_bytes(i@));
}

proof fn lemma_message_crosses(
    near: LinkFace,
    after: LinkFace,
    message: Seq<u8>,
    sent: Vec<u8>,
    far: LinkFace,
)
    requires
        link::ends_of_one_link(near.link, far.link),
        transmitted(near.link, after.link, message, Ok(sent)),
    ensures
        packet::parsed_packet(sent@) matches Ok(p) && far.link.delivered(p) == Ok::<
            Seq<u8>,
            crate::transport::error::TransportFault,
        >(message),
{
    let (ephemeral, iv, result) = choose|
        ephemeral: Seq<u8>,
        iv: Seq<u8>,
        result: Result<Packet, TransportError>,
    |
        ephemeral.len() == 32 && iv.len() == 16 && #[trigger] link::send_effect(
            near.link,
            after.link,
            message,
            ephemeral,
            iv,
            result,
        ) && (match result {
            Ok(p) => Ok::<Vec<u8>, String>(sent) matches Ok(b) && b@ == packet::packet_bytes(p@),
            Err(e) => Ok::<Vec<u8>, String>(sent) matches Err(m) && m@ == "send failed: "@
                + error::transport_message(e@),
        });
    let p = result->Ok_0;
    packet::law_packet_roundtrip(p@);
    link::law_link_delivers(near.link, after.link, far.link, message, ephemeral, iv, p);
}

/// A face over a link bears an hour of disruption, and one in memory five seconds.
pub proof fn law_tolerance(f: &LinkFace, c: FaceCapabilities, m: FaceCapabilities)
    requires
        call_ensures(LinkFace::capabilities, (f,), c),
        call_ensures(FaceCapabilities::in_memory, (), m),
    ensures
        c.disruption_tolerance.total() == 3_600_000_000_000,
        !c.is_local,
        m.disruption_tolerance.total() == 5_000_000_000,
        m.is_local,
{
}

} // verus!
