//! Who a frame from an unknown UDP endpoint comes from.

use crate::crypto::primitives;
use crate::identity::rns_address;
use crate::identity::RnsAddress;
use crate::mesh::error::MeshError;
use crate::packet;
use crate::packet::{Packet, PacketModel};
use crate::table;
use crate::table::Table;
use crate::text;
use crate::wire;
use vstd::prelude::*;

verus! {

/// The sender of a frame from an endpoint that belongs to no peer.
#[derive(Debug, Clone, Copy, PartialEq, Eq)]
pub enum Source {
    /// An announce shows it; the endpoint belongs to this peer from now on.
    Announced(RnsAddress),
    /// It is taken for the destination of the packet.
    Assumed(RnsAddress),
    /// The frame is no packet.
    Unknown,
}

/// A sender over byte sequences.
pub enum SourceView {
    Announced(Seq<u8>),
    Assumed(Seq<u8>),
    Unknown,
}

impl View for Source {
    type V = SourceView;

    open spec fn view(&self) -> SourceView {
        match *self {
            Source::Announced(a) => SourceView::Announced(a@),
            Source::Assumed(a) => SourceView::Assumed(a@),
            Source::Unknown => SourceView::Unknown,
        }
    }
}

/// The sender of a packet. An announce carries the full public key, or the Ed25519
/// key alone, of its sender.
pub open spec fn packet_source(p: PacketModel) -> SourceView {
    if p.packet_type == packet::ANNOUNCE && p.data.len() >= 64 {
        SourceView::Announced(rns_address::rns_hash(p.data.subrange(0, 64)))
    } else if p.packet_type == packet::ANNOUNCE && p.data.len() >= 32 {
        SourceView::Announced(rns_address::rns_hash(p.data.subrange(0, 32)))
    } else {
        SourceView::Assumed(p.destination_hash)
    }
}

/// The sender of a frame from an endpoint that belongs to no peer.
pub fn frame_source(frame: &[u8]) -> (s: Source)
    ensures
        s@ == (match packet::parsed_packet(frame@) {
            Ok(p) => packet_source(p),
            Err(_) => SourceView::Unknown,
        }),
{
    let p: Packet = match Packet::from_bytes(frame) {
        Ok(p) => p,
        Err(_) => {
            return Source::Unknown;
        },
    };
    if p.packet_type == packet::ANNOUNCE {
        if p.data.len() >= 64 {
            let key: [u8; 64] = wire::read_64(p.data.as_slice(), 0);
            return Source::Announced(RnsAddress::from_full_key(&key));
        }
        if p.data.len() >= 32 {
            let key: [u8; 32] = wire::read_32(p.data.as_slice(), 0);
            return Source::Announced(RnsAddress::from_identity_key(&key));
        }
    }
    match p.destination() {
        Ok(a) => Source::Assumed(a),
        Err(_) => Source::Unknown,
    }
}

/// The UDP endpoints of peers, as text.
pub struct UdpPeers {
    pub endpoints: Table<RnsAddress, String>,
}

/// Whether a peer is known at an endpoint.
pub open spec fn at(m: Map<Seq<u8>, String>, peer: Seq<u8>, endpoint: Seq<char>) -> bool {
    m.dom().contains(peer) && m[peer]@ == endpoint
}

impl UdpPeers {
    pub open spec fn wf(&self) -> bool {
        self.endpoints.wf()
    }

    /// No peers.
    pub fn new() -> (p: Self)
        ensures
            p.wf(),
            p.endpoints@ == Map::<Seq<u8>, String>::empty(),
    {
        UdpPeers { endpoints: Table::new() }
    }

    /// Registers the endpoint of a peer.
    pub fn add_peer(&mut self, peer: RnsAddress, endpoint: String)
        requires
            old(self).wf(),
        ensures
            final(self).wf(),
            final(self).endpoints@ == old(self).endpoints@.insert(peer@, endpoint),
    {
        self.endpoints.insert(peer, endpoint);
    }

    /// The endpoint that a frame for a peer goes to.
    pub fn endpoint_of(&self, peer: &RnsAddress) -> (r: Result<&String, MeshError>)
        requires
            self.wf(),
        ensures
            (match r {
                Ok(e) => self.endpoints@.dom().contains(peer@) && *e == self.endpoints@[peer@],
                Err(x) => !self.endpoints@.dom().contains(peer@) && (x matches
                    MeshError::UnknownPeer(m) && m@ == text::hex_text(peer@)),
            }),
    {
        match self.endpoints.get(peer) {
            Some(e) => Ok(e),
            None => Err(MeshError::UnknownPeer(text::hex_encode(peer.as_bytes().as_slice()))),
        }
    }

    fn peer_at(&self, endpoint: &str) -> (r: Option<RnsAddress>)
        requires
            self.wf(),
        ensures
            (match r {
                Some(a) => at(self.endpoints@, a@, endpoint@),
                None => forall|a: Seq<u8>| !#[trigger] at(self.endpoints@, a, endpoint@),
            }),
    {
        let wanted: String = endpoint.to_owned();
        let mut i: usize = 0;
        while i < self.endpoints.entries.len()
            invariant
                wanted@ == endpoint@,
                self.wf(),
                i <= self.endpoints.entries@.len(),
                forall|k: int|
                    0 <= k < i ==> (#[trigger] self.endpoints.entries@[k]).1@ != endpoint@,
            decreases self.endpoints.entries@.len() - i,
        {
            let e: &(RnsAddress, String) = &self.endpoints.entries[i];
            if e.1 == wanted {
                proof {
                    table::lemma_entry(self.endpoints.entries@, i as int);
                }
                return Some(e.0);
            }
            i = i + 1;
        }
        proof {
            assert forall|a: Seq<u8>| !#[trigger] at(self.endpoints@, a, endpoint@) by {
                if at(self.endpoints@, a, endpoint@) {
                    let k = table::place(self.endpoints.entries@, a);
                    table::lemma_entry(self.endpoints.entries@, k);
                }
            }
        }
        None
    }

    /// What a frame from an endpoint leads to. It comes from a peer that is known there;
    /// otherwise the frame itself tells, and an announce registers its sender.
    pub open spec fn attributed(
        before: Map<Seq<u8>, String>,
        after: Map<Seq<u8>, String>,
        endpoint: Seq<char>,
        frame: Seq<u8>,
        r: Option<RnsAddress>,
    ) -> bool {
        if exists|a: Seq<u8>| #[trigger] at(before, a, endpoint) {
            after == before && (r matches Some(a) && at(before, a@, endpoint))
        } else {
            match packet::parsed_packet(frame) {
                Err(_) => after == before && r is None,
                Ok(p) => match packet_source(p) {
                    SourceView::Announced(a) => (r matches Some(x) && x@ == a)
                        && after.dom().contains(a) && after[a]@ == endpoint && after
                        == before.insert(a, after[a]),
                    SourceView::Assumed(a) => (r matches Some(x) && x@ == a) && after == before,
                    SourceView::Unknown => r is None && after == before,
                },
            }
        }
    }

    /// Who a frame from an endpoint comes from; `None` for a frame to be dropped.
    pub fn attribute(&mut self, endpoint: &str, frame: &[u8]) -> (r: Option<RnsAddress>)
        requires
            old(self).wf(),
        ensures
            final(self).wf(),
            Self::attributed(old(self).endpoints@, final(self).endpoints@, endpoint@, frame@, r),
    {
        if let Some(a) = self.peer_at(endpoint) {
            assert(at(self.endpoints@, a@, endpoint@));
            return Some(a);
        }
        match frame_source(frame) {
            Source::Announced(a) => {
                self.add_peer(a, endpoint.to_owned());
                Some(a)
            },
            Source::Assumed(a) => Some(a),
            Source::Unknown => None,
        }
    }
}

/// A frame from an endpoint that a peer is known at comes from such a peer, whatever it
/// says, and teaches nothing.
pub proof fn law_known_endpoint_decides(
    before: Map<Seq<u8>, String>,
    after: Map<Seq<u8>, String>,
    endpoint: Seq<char>,
    frame: Seq<u8>,
    r: Option<RnsAddress>,
    peer: Seq<u8>,
)
    requires
        before.dom().contains(peer),
        before[peer]@ == endpoint,
        UdpPeers::attributed(before, after, endpoint, frame, r),
    ensures
        after == before,
        r matches Some(a) && before.dom().contains(a@) && before[a@]@ == endpoint,
{
    assert(at(before, peer, endpoint));
}

/// A frame from an endpoint that is not known is that of the node whose keys it announces,
/// and that node is then known to be at the endpoint. Any other packet is taken to come
/// from the address in its header, and bytes that are no packet from nobody; neither
/// teaches anything.
pub proof fn law_unknown_endpoint_is_learned(
    before: Map<Seq<u8>, String>,
    after: Map<Seq<u8>, String>,
    endpoint: Seq<char>,
    frame: Seq<u8>,
    r: Option<RnsAddress>,
    p: PacketModel,
)
    requires
        forall|a: Seq<u8>| #[trigger] before.dom().contains(a) ==> before[a]@ != endpoint,
        UdpPeers::attributed(before, after, endpoint, frame, r),
    ensures
        packet::parsed_packet(frame) is Err ==> after == before && r is None,
        packet::parsed_packet(frame) == Ok::<PacketModel, Seq<char>>(p) && p.packet_type
            == packet::ANNOUNCE && p.data.len() >= 64 ==> {
            let a = primitives::sha256_digest(p.data.subrange(0, 64)).subrange(0, 16);
            &&& r matches Some(x) && x@ == a
            &&& after.dom().contains(a)
            &&& after[a]@ == endpoint
            &&& forall|k: Seq<u8>| k != a && #[trigger] before.dom().contains(k) ==> after[k]
                == before[k]
        },
        packet::parsed_packet(frame) == Ok::<PacketModel, Seq<char>>(p) && p.packet_type
            == packet::ANNOUNCE && 32 <= p.data.len() < 64 ==> {
            let a = primitives::sha256_digest(p.data.subrange(0, 32)).subrange(0, 16);
            &&& r matches Some(x) && x@ == a
            &&& after.dom().contains(a)
            &&& after[a]@ == endpoint
        },
        packet::parsed_packet(frame) == Ok::<PacketModel, Seq<char>>(p) && (p.packet_type
            != packet::ANNOUNCE || p.data.len() < 32) ==> after == before && (r matches Some(x)
            && x@ == p.destination_hash),
{
}

/// The endpoint that is registered for a peer is where it is reached; a peer without one is
/// not known.
pub proof fn law_registered_endpoint(
    p: &mut UdpPeers,
    peer: RnsAddress,
    endpoint: String,
    after: &UdpPeers,
    r: Result<&String, MeshError>,
    other: &RnsAddress,
    q: Result<&String, MeshError>,
)
    requires
        old(p).wf(),
        call_ensures(UdpPeers::add_peer, (p, peer, endpoint), ()),
        *after == *final(p),
        call_ensures(UdpPeers::endpoint_of, (after, &peer), r),
        other@ != peer@,
        call_ensures(UdpPeers::endpoint_of, (after, other), q),
    ensures
        r matches Ok(e) && *e == endpoint,
        q is Ok <==> old(p).endpoints@.dom().contains(other@),
        q matches Ok(e) ==> *e == old(p).endpoints@[other@],
{
}

} // verus!
