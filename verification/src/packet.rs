//! The packet format.
//!
//! ```text
//! HEADER_1: [flags:1][hops:1][dest_hash:16][context:1][data:...]
//! HEADER_2: [flags:1][hops:1][transport_id:16][dest_hash:16][context:1][data:...]
//! ```
//!
//! Flags byte, from the top: header type (2 bits), context flag (1), transport type
//! (1), destination type (2), packet type (2).

use crate::identity::RnsAddress;
use crate::wire;
use vstd::prelude::*;

verus! {

/// Packet-level errors.
#[derive(Debug, PartialEq, Eq, Clone)]
pub enum PacketError {
    Invalid(&'static str),
    Serde(String),
}

/// Packet types.
pub const DATA: u8 = 0x00;

pub const ANNOUNCE: u8 = 0x01;

pub const LINKREQUEST: u8 = 0x02;

pub const PROOF: u8 = 0x03;

/// Header types.
pub const HEADER_1: u8 = 0x00;

pub const HEADER_2: u8 = 0x01;

/// Contexts.
pub const NONE: u8 = 0x00;

pub const PATH_RESPONSE: u8 = 0xF0;

pub const CACHE_REQUEST: u8 = 0xF1;

pub const REQUEST: u8 = 0xF2;

pub const RESPONSE: u8 = 0xF3;

pub const COMMAND: u8 = 0xF4;

pub const SINGLE: u8 = 0xF5;

pub const GROUP: u8 = 0xF6;

pub const RESOURCE: u8 = 0xFA;

pub const RESOURCE_PRF: u8 = 0xFB;

pub const RESOURCE_ADV: u8 = 0xFC;

pub const RESOURCE_REQ: u8 = 0xFD;

pub const RESOURCE_HMU: u8 = 0xFE;

pub const LINKIDENTITY: u8 = 0xFB;

pub const LINKCLOSE: u8 = 0xFC;

pub const LINKPROOF: u8 = 0xFD;

pub const KEEPALIVE: u8 = 0xFA;

pub const LRPROOF: u8 = 0xFF;

/// Context of DATA packets that are used for path discovery.
pub const PATH_REQUEST: u8 = 0x01;

/// Destination types.
pub const DEST_SINGLE: u8 = 0x00;

pub const DEST_LINK: u8 = 0x01;

/// Context flag.
pub const FLAG_UNSET: u8 = 0x00;

pub const FLAG_SET: u8 = 0x01;

/// Transport types.
pub const TRANSPORT_BROADCAST: u8 = 0x00;

pub const TRANSPORT_UNICAST: u8 = 0x01;

/// Length of a destination hash and of a transport id.
pub const HASH_LENGTH: usize = 16;

/// Minimum header size: flags(1) + hops(1) + dest_hash(16) + context(1).
pub const HEADER_MINSIZE: usize = 19;

/// Maximum header size: flags(1) + hops(1) + transport_id(16) + dest_hash(16) + context(1).
pub const HEADER_MAXSIZE: usize = 35;

/// Hop count of new packets.
pub const MAX_HOPS: u8 = 64;

// --- Flags ---

/// The flags byte as a sum of its fields, each cut to its width.
pub open spec fn flags_byte(
    header_type: u8,
    context_flag: u8,
    transport_type: u8,
    destination_type: u8,
    packet_type: u8,
) -> int {
    (header_type % 4) * 64 + (context_flag % 2) * 32 + (transport_type % 2) * 16 + (destination_type
        % 4) * 4 + packet_type % 4
}

/// Packs the fields into the flags byte. Bits beyond a field's width are dropped.
pub fn pack_flags(
    header_type: u8,
    context_flag: u8,
    transport_type: u8,
    destination_type: u8,
    packet_type: u8,
) -> (flags: u8)
    ensures
        flags == flags_byte(
            header_type,
            context_flag,
            transport_type,
            destination_type,
            packet_type,
        ),
{
    assert((((header_type & 0x03) << 6) | ((context_flag & 0x01) << 5) | ((transport_type & 0x01)
        << 4) | ((destination_type & 0x03) << 2) | (packet_type & 0x03)) == (header_type % 4) * 64
        + (context_flag % 2) * 32 + (transport_type % 2) * 16 + (destination_type % 4) * 4
        + packet_type % 4) by (bit_vector);
    ((header_type & 0x03) << 6) | ((context_flag & 0x01) << 5) | ((transport_type & 0x01) << 4) | ((
    destination_type & 0x03) << 2) | (packet_type & 0x03)
}

/// Unpacks the flags byte: header type, context flag, transport type, destination
/// type, packet type.
pub fn unpack_flags(flags: u8) -> (fields: (u8, u8, u8, u8, u8))
    ensures
        fields.0 == flags / 64,
        fields.1 == (flags / 32) % 2,
        fields.2 == (flags / 16) % 2,
        fields.3 == (flags / 4) % 4,
        fields.4 == flags % 4,
{
    assert((flags >> 6) & 0x03 == flags / 64) by (bit_vector);
    assert((flags >> 5) & 0x01 == (flags / 32) % 2) by (bit_vector);
    assert((flags >> 4) & 0x01 == (flags / 16) % 2) by (bit_vector);
    assert((flags >> 2) & 0x03 == (flags / 4) % 4) by (bit_vector);
    assert(flags & 0x03 == flags % 4) by (bit_vector);
    (
        (flags >> 6) & 0x03,
        (flags >> 5) & 0x01,
        (flags >> 4) & 0x01,
        (flags >> 2) & 0x03,
        flags & 0x03,
    )
}

/// Unpacking what was packed gives each field back, cut to its width.
pub proof fn law_flags_roundtrip(
    header_type: u8,
    context_flag: u8,
    transport_type: u8,
    destination_type: u8,
    packet_type: u8,
)
    ensures
        ({
            let flags = flags_byte(
                header_type,
                context_flag,
                transport_type,
                destination_type,
                packet_type,
            );
            &&& 0 <= flags < 256
            &&& flags / 64 == header_type % 4
            &&& (flags / 32) % 2 == context_flag % 2
            &&& (flags / 16) % 2 == transport_type % 2
            &&& (flags / 4) % 4 == destination_type % 4
            &&& flags % 4 == packet_type % 4
        }),
{
}

// --- Packets ---

/// A packet as a mathematical value.
#[verifier::ext_equal]
pub struct PacketModel {
    pub header_type: u8,
    pub context_flag: u8,
    pub transport_type: u8,
    pub destination_type: u8,
    pub packet_type: u8,
    pub hops: u8,
    pub destination_hash: Seq<u8>,
    pub transport_id: Option<Seq<u8>>,
    pub context: u8,
    pub data: Seq<u8>,
}

impl PacketModel {
    /// Whether every field fits its place on the wire: flags within their widths, and
    /// a transport id exactly where the header has room for one.
    pub open spec fn fits(&self) -> bool {
        &&& self.header_type < 4
        &&& self.context_flag < 2
        &&& self.transport_type < 2
        &&& self.destination_type < 4
        &&& self.packet_type < 4
        &&& self.destination_hash.len() == 16
        &&& (self.header_type == HEADER_2 <==> self.transport_id is Some)
        &&& (self.transport_id matches Some(id) ==> id.len() == 16)
    }
}

/// A packet.
#[derive(Debug, Clone, PartialEq, Eq)]
pub struct Packet {
    /// `HEADER_1` or `HEADER_2`.
    pub header_type: u8,
    /// `FLAG_SET` or `FLAG_UNSET`.
    pub context_flag: u8,
    /// `TRANSPORT_BROADCAST` or `TRANSPORT_UNICAST`.
    pub transport_type: u8,
    /// `DEST_SINGLE` or `DEST_LINK`.
    pub destination_type: u8,
    /// `DATA`, `ANNOUNCE`, `LINKREQUEST` or `PROOF`.
    pub packet_type: u8,
    /// Hop count, decremented at each forward.
    pub hops: u8,
    pub destination_hash: [u8; 16],
    /// Present where the header type is `HEADER_2`.
    pub transport_id: Option<[u8; 16]>,
    pub context: u8,
    pub data: Vec<u8>,
}

/// The bytes of an optional 16-byte hash.
pub open spec fn hash_view(v: Option<[u8; 16]>) -> Option<Seq<u8>> {
    match v {
        Some(b) => Some(b@),
        None => None,
    }
}

impl View for Packet {
    type V = PacketModel;

    open spec fn view(&self) -> PacketModel {
        PacketModel {
            header_type: self.header_type,
            context_flag: self.context_flag,
            transport_type: self.transport_type,
            destination_type: self.destination_type,
            packet_type: self.packet_type,
            hops: self.hops,
            destination_hash: self.destination_hash@,
            transport_id: hash_view(self.transport_id),
            context: self.context,
            data: self.data@,
        }
    }
}

/// The packets as mathematical values.
pub open spec fn models(v: Seq<Packet>) -> Seq<PacketModel> {
    Seq::new(v.len(), |i: int| v[i]@)
}

/// The bytes of a packet.
pub open spec fn packet_bytes(p: PacketModel) -> Seq<u8> {
    let flags = flags_byte(
        p.header_type,
        p.context_flag,
        p.transport_type,
        p.destination_type,
        p.packet_type,
    ) as u8;
    let id = if p.header_type == HEADER_2 && p.transport_id is Some {
        p.transport_id->0
    } else {
        Seq::empty()
    };
    seq![flags, p.hops] + id + p.destination_hash + seq![p.context] + p.data
}

/// The packet that a byte string holds, or why it holds none.
pub open spec fn parsed_packet(b: Seq<u8>) -> Result<PacketModel, Seq<char>> {
    if b.len() < 3 {
        Err("packet too short (< 3 bytes)"@)
    } else {
        let header_type = b[0] / 64;
        let at = if header_type == HEADER_2 {
            18int
        } else {
            2int
        };
        if b.len() < at + 17 {
            if header_type == HEADER_2 {
                Err("HEADER_2 packet too short for transport_id + dest_hash + context"@)
            } else {
                Err("HEADER_1 packet too short for dest_hash + context"@)
            }
        } else {
            Ok(
                PacketModel {
                    header_type,
                    context_flag: (b[0] / 32) % 2,
                    transport_type: (b[0] / 16) % 2,
                    destination_type: (b[0] / 4) % 4,
                    packet_type: b[0] % 4,
                    hops: b[1],
                    destination_hash: b.subrange(at, at + 16),
                    transport_id: if header_type == HEADER_2 {
                        Some(b.subrange(2, 18))
                    } else {
                        None
                    },
                    context: b[at + 16],
                    data: b.subrange(at + 17, b.len() as int),
                },
            )
        }
    }
}

/// A packet whose fields fit is read back from its bytes.
pub proof fn law_packet_roundtrip(p: PacketModel)
    requires
        p.fits(),
    ensures
        parsed_packet(packet_bytes(p)) == Ok::<PacketModel, Seq<char>>(p),
{
    law_flags_roundtrip(
        p.header_type,
        p.context_flag,
        p.transport_type,
        p.destination_type,
        p.packet_type,
    );
    let b = packet_bytes(p);
    let at = if p.header_type == HEADER_2 {
        18int
    } else {
        2int
    };
    let q = parsed_packet(b)->Ok_0;
    assert(b.subrange(at, at + 16) =~= p.destination_hash);
    assert(b.subrange(at + 17, b.len() as int) =~= p.data);
    if p.header_type == HEADER_2 {
        assert(b.subrange(2, 18) =~= p.transport_id->0);
    }
    assert(q =~= p);
}

/// Every byte string that parses is the encoding of what it parses to.
pub proof fn law_packet_bytes_roundtrip(b: Seq<u8>)
    requires
        parsed_packet(b) is Ok,
    ensures
        parsed_packet(b)->Ok_0.fits(),
        packet_bytes(parsed_packet(b)->Ok_0) == b,
{
    let p = parsed_packet(b)->Ok_0;
    let f = b[0];
    assert((f / 64) % 4 * 64 + ((f / 32) % 2) % 2 * 32 + ((f / 16) % 2) % 2 * 16 + ((f / 4) % 4) % 4
        * 4 + (f % 4) % 4 == f && f / 64 < 4) by (bit_vector);
    let q = packet_bytes(p);
    assert(q[0] == f);
    assert(q.len() == b.len());
    assert forall|i: int| 0 <= i < b.len() implies q[i] == b[i] by {}
    assert(q =~= b);
}

impl Packet {
    /// A DATA packet with default flags.
    pub fn new_data(destination: RnsAddress, data: Vec<u8>) -> (p: Self)
        ensures
            p@ == (PacketModel {
                header_type: HEADER_1,
                context_flag: FLAG_UNSET,
                transport_type: TRANSPORT_BROADCAST,
                destination_type: DEST_SINGLE,
                packet_type: DATA,
                hops: MAX_HOPS,
                destination_hash: destination@,
                transport_id: None,
                context: NONE,
                data: data@,
            }),
            p@.fits(),
    {
        Packet {
            header_type: HEADER_1,
            context_flag: FLAG_UNSET,
            transport_type: TRANSPORT_BROADCAST,
            destination_type: DEST_SINGLE,
            packet_type: DATA,
            hops: MAX_HOPS,
            destination_hash: *destination.as_bytes(),
            transport_id: None,
            context: NONE,
            data,
        }
    }

    /// An ANNOUNCE packet.
    pub fn new_announce(destination: RnsAddress, data: Vec<u8>) -> (p: Self)
        ensures
            p@ == (PacketModel {
                header_type: HEADER_1,
                context_flag: FLAG_SET,
                transport_type: TRANSPORT_BROADCAST,
                destination_type: DEST_SINGLE,
                packet_type: ANNOUNCE,
                hops: 1,
                destination_hash: destination@,
                transport_id: None,
                context: NONE,
                data: data@,
            }),
            p@.fits(),
    {
        Packet {
            header_type: HEADER_1,
            context_flag: FLAG_SET,
            transport_type: TRANSPORT_BROADCAST,
            destination_type: DEST_SINGLE,
            packet_type: ANNOUNCE,
            hops: 1,
            destination_hash: *destination.as_bytes(),
            transport_id: None,
            context: NONE,
            data,
        }
    }

    /// A LINKREQUEST packet.
    pub fn new_link_request(destination: RnsAddress, data: Vec<u8>) -> (p: Self)
        ensures
            p@ == (PacketModel {
                header_type: HEADER_1,
                context_flag: FLAG_UNSET,
                transport_type: TRANSPORT_BROADCAST,
                destination_type: DEST_SINGLE,
                packet_type: LINKREQUEST,
                hops: MAX_HOPS,
                destination_hash: destination@,
                transport_id: None,
                context: NONE,
                data: data@,
            }),
            p@.fits(),
    {
        Packet {
            header_type: HEADER_1,
            context_flag: FLAG_UNSET,
            transport_type: TRANSPORT_BROADCAST,
            destination_type: DEST_SINGLE,
            packet_type: LINKREQUEST,
            hops: MAX_HOPS,
            destination_hash: *destination.as_bytes(),
            transport_id: None,
            context: NONE,
            data,
        }
    }

    /// A PROOF packet.
    pub fn new_proof(destination: RnsAddress, context: u8, data: Vec<u8>) -> (p: Self)
        ensures
            p@ == (PacketModel {
                header_type: HEADER_1,
                context_flag: FLAG_SET,
                transport_type: TRANSPORT_UNICAST,
                destination_type: DEST_SINGLE,
                packet_type: PROOF,
                hops: MAX_HOPS,
                destination_hash: destination@,
                transport_id: None,
                context,
                data: data@,
            }),
            p@.fits(),
    {
        Packet {
            header_type: HEADER_1,
            context_flag: FLAG_SET,
            transport_type: TRANSPORT_UNICAST,
            destination_type: DEST_SINGLE,
            packet_type: PROOF,
            hops: MAX_HOPS,
            destination_hash: *destination.as_bytes(),
            transport_id: None,
            context,
            data,
        }
    }

    /// A HEADER_2 transport packet.
    pub fn new_transport(destination: RnsAddress, transport_id: [u8; 16], data: Vec<u8>) -> (p: Self)
        ensures
            p@ == (PacketModel {
                header_type: HEADER_2,
                context_flag: FLAG_UNSET,
                transport_type: TRANSPORT_UNICAST,
                destination_type: DEST_SINGLE,
                packet_type: DATA,
                hops: MAX_HOPS,
                destination_hash: destination@,
                transport_id: Some(transport_id@),
                context: NONE,
                data: data@,
            }),
            p@.fits(),
    {
        Packet {
            header_type: HEADER_2,
            context_flag: FLAG_UNSET,
            transport_type: TRANSPORT_UNICAST,
            destination_type: DEST_SINGLE,
            packet_type: DATA,
            hops: MAX_HOPS,
            destination_hash: *destination.as_bytes(),
            transport_id: Some(transport_id),
            context: NONE,
            data,
        }
    }

    /// A copy of the packet.
    pub fn duplicate(&self) -> (p: Self)
        ensures
            p@ == self@,
    {
        Packet {
            header_type: self.header_type,
            context_flag: self.context_flag,
            transport_type: self.transport_type,
            destination_type: self.destination_type,
            packet_type: self.packet_type,
            hops: self.hops,
            destination_hash: self.destination_hash,
            transport_id: self.transport_id,
            context: self.context,
            data: wire::copy_all(self.data.as_slice()),
        }
    }

    /// Whether the hop count is used up.
    pub fn is_expired(&self) -> (r: bool)
        ensures
            r <==> self.hops == 0,
    {
        self.hops == 0
    }

    /// Decrements the hop count by 1, staying at 0; nothing else changes.
    pub fn decrement_ttl(&mut self)
        ensures
            final(self)@ == (PacketModel {
                hops: if old(self).hops == 0 {
                    0
                } else {
                    (old(self).hops - 1) as u8
                },
                ..old(self)@
            }),
    {
        self.hops = self.hops.saturating_sub(1);
    }

    /// The destination as an address. Every packet has one.
    pub fn destination(&self) -> (r: Result<RnsAddress, PacketError>)
        ensures
            r matches Ok(a) && a@ == self.destination_hash@,
    {
        match RnsAddress::from_bytes(self.destination_hash.as_slice()) {
            Ok(a) => Ok(a),
            Err(_) => Err(PacketError::Invalid("invalid destination hash")),
        }
    }

    /// Serializes the packet.
    pub fn to_bytes(&self) -> (buf: Vec<u8>)
        ensures
            buf@ == packet_bytes(self@),
    {
        let mut buf: Vec<u8> = Vec::new();
        let flags: u8 = pack_flags(
            self.header_type,
            self.context_flag,
            self.transport_type,
            self.destination_type,
            self.packet_type,
        );
        buf.push(flags);
        buf.push(self.hops);
        if self.header_type == HEADER_2 {
            if let Some(tid) = &self.transport_id {
                wire::push_all(&mut buf, tid.as_slice());
            }
        }
        wire::push_all(&mut buf, self.destination_hash.as_slice());
        buf.push(self.context);
        wire::push_all(&mut buf, self.data.as_slice());
        assert(buf@ =~= packet_bytes(self@));
        buf
    }

    /// Parses a packet.
    pub fn from_bytes(data: &[u8]) -> (r: Result<Self, PacketError>)
        ensures
            (match r {
                Ok(p) => parsed_packet(data@) == Ok::<PacketModel, Seq<char>>(p@),
                Err(PacketError::Invalid(m)) => parsed_packet(data@) == Err::<
                    PacketModel,
                    Seq<char>,
                >(m@),
                Err(PacketError::Serde(_)) => false,
            }),
    {
        if data.len() < 3 {
            return Err(PacketError::Invalid("packet too short (< 3 bytes)"));
        }
        let (header_type, context_flag, transport_type, destination_type, packet_type) =
            unpack_flags(data[0]);
        let hops: u8 = data[1];
        let mut pos: usize = 2;
        let transport_id: Option<[u8; 16]> = if header_type == HEADER_2 {
            if data.len() < pos + HASH_LENGTH + HASH_LENGTH + 1 {
                return Err(
                    PacketError::Invalid(
                        "HEADER_2 packet too short for transport_id + dest_hash + context",
                    ),
                );
            }
            let tid: [u8; 16] = wire::read_16(data, pos);
            pos = pos + HASH_LENGTH;
            Some(tid)
        } else {
            if data.len() < pos + HASH_LENGTH + 1 {
                return Err(
                    PacketError::Invalid("HEADER_1 packet too short for dest_hash + context"),
                );
            }
            None
        };
        let destination_hash: [u8; 16] = wire::read_16(data, pos);
        pos = pos + HASH_LENGTH;
        let context: u8 = data[pos];
        pos = pos + 1;
        let payload: Vec<u8> = wire::copy_range(data, pos, data.len());
        let p: Packet = Packet {
            header_type,
            context_flag,
            transport_type,
            destination_type,
            packet_type,
            hops,
            destination_hash,
            transport_id,
            context,
            data: payload,
        };
        assert(p@ =~= parsed_packet(data@)->Ok_0);
        Ok(p)
    }
}

/// Where the fields of a packet stand on the wire: flags and hops in the first two bytes;
/// with the second kind of header the 16 bytes of the transport id; then the 16 bytes of
/// the destination, the context and the data.
pub proof fn law_packet_layout(p: PacketModel)
    requires
        p.fits(),
    ensures
        ({
            let b = packet_bytes(p);
            &&& b[0] == p.header_type * 64 + p.context_flag * 32 + p.transport_type * 16
                + p.destination_type * 4 + p.packet_type
            &&& b[1] == p.hops
            &&& (p.header_type != 1 ==> b.len() == 19 + p.data.len() && b.subrange(2, 18)
                == p.destination_hash && b[18] == p.context && b.subrange(19, b.len() as int)
                == p.data)
            &&& (p.header_type == 1 ==> b.len() == 35 + p.data.len() && Some(b.subrange(2, 18))
                == p.transport_id && b.subrange(18, 34) == p.destination_hash && b[34] == p.context
                && b.subrange(35, b.len() as int) == p.data)
        }),
{
    let b = packet_bytes(p);
    law_flags_roundtrip(
        p.header_type,
        p.context_flag,
        p.transport_type,
        p.destination_type,
        p.packet_type,
    );
    if p.header_type == 1 {
        assert(b.subrange(2, 18) =~= p.transport_id->0);
        assert(b.subrange(18, 34) =~= p.destination_hash);
        assert(b.subrange(35, b.len() as int) =~= p.data);
    } else {
        assert(b.subrange(2, 18) =~= p.destination_hash);
        assert(b.subrange(19, b.len() as int) =~= p.data);
    }
}

/// Bytes are a packet exactly where they are long enough for the header that their first
/// two bits tell.
pub proof fn law_packet_length(b: Seq<u8>)
    ensures
        parsed_packet(b) is Ok <==> (b.len() >= 19 && (b[0] / 64 == 1 ==> b.len() >= 35)),
{
}

/// What a packet is written as is read back as that packet.
pub proof fn law_written_is_read(
    p: &Packet,
    buf: Vec<u8>,
    bytes: &[u8],
    r: Result<Packet, PacketError>,
)
    requires
        p@.fits(),
        call_ensures(Packet::to_bytes, (p,), buf),
        bytes@ == buf@,
        call_ensures(Packet::from_bytes, (bytes,), r),
    ensures
        r matches Ok(q) && q@ == p@,
{
    law_packet_roundtrip(p@);
}

/// Data, an announce and a link request go out with the type that tells what they are, to
/// their destination, with their data; an announce goes one hop.
pub proof fn law_new_packets(
    destination: RnsAddress,
    data: Vec<u8>,
    context: u8,
    id: [u8; 16],
    d: Packet,
    a: Packet,
    l: Packet,
    p: Packet,
    t: Packet,
)
    requires
        call_ensures(Packet::new_data, (destination, data), d),
        call_ensures(Packet::new_announce, (destination, data), a),
        call_ensures(Packet::new_link_request, (destination, data), l),
        call_ensures(Packet::new_proof, (destination, context, data), p),
        call_ensures(Packet::new_transport, (destination, id, data), t),
    ensures
        d@.packet_type == 0 && a@.packet_type == 1 && l@.packet_type == 2 && p@.packet_type == 3
            && t@.packet_type == 0,
        d@.data == data@ && a@.data == data@ && l@.data == data@ && p@.data == data@ && t@.data
            == data@,
        d@.destination_hash == destination@ && a@.destination_hash == destination@
            && l@.destination_hash == destination@ && p@.destination_hash == destination@
            && t@.destination_hash == destination@,
        d@.hops == 64 && a@.hops == 1 && l@.hops == 64 && p@.hops == 64 && t@.hops == 64,
        p@.context == context,
        t@.transport_id == Some(id@) && d@.transport_id is None && a@.transport_id is None
            && l@.transport_id is None && p@.transport_id is None,
{
}

/// Each hop takes one from the hops that are left, down to none, and nothing else changes;
/// a packet without hops left has expired.
pub proof fn law_hops_run_out(p: &mut Packet, expired: bool, q: &Packet)
    requires
        call_ensures(Packet::decrement_ttl, (p,), ()),
        call_ensures(Packet::is_expired, (q,), expired),
        *q == *final(p),
    ensures
        old(p).hops > 0 ==> final(p).hops == old(p).hops - 1,
        old(p).hops == 0 ==> final(p).hops == 0,
        final(p)@.data == old(p)@.data && final(p)@.destination_hash == old(p)@.destination_hash,
        expired <==> final(p).hops == 0,
{
    assert(final(p)@.hops == final(p).hops);
}

} // verus!
