//! Sending and receiving messages as packets, in fragments where they are too large.
//!
//! A fragment carries the message id (8 bytes), its own number (2) and the number of
//! fragments (2), then its part of the message.

use crate::crypto::primitives;
use crate::identity::RnsAddress;
use crate::packet;
use crate::packet::{Packet, PacketModel};
use crate::pieces;
use crate::transport::error::{TransportError, TransportFault};
use crate::wire;
use std::collections::HashMap;
use vstd::prelude::*;

verus! {

broadcast use vstd::std_specs::hash::group_hash_axioms;

/// Default maximum transmission unit.
pub const DEFAULT_MTU: u16 = 500;

/// The largest payload of a packet: what a header of maximal size leaves.
pub open spec fn payload_limit(mtu: u16) -> nat {
    if mtu >= 35 {
        (mtu - 35) as nat
    } else {
        0
    }
}

/// The largest payload of a packet.
pub fn max_payload(mtu: u16) -> (n: usize)
    ensures
        n == payload_limit(mtu),
{
    (mtu as usize).saturating_sub(35)
}

/// The fragments of one message that have arrived.
pub struct ReassemblyBuffer {
    /// How many fragments the message has.
    pub total: u16,
    /// The parts that have arrived, by number.
    pub fragments: HashMap<u32, Vec<u8>>,
}

/// The fragments of one message that have arrived, as a mathematical value.
#[verifier::ext_equal]
pub struct Partial {
    pub total: u16,
    pub fragments: Map<u32, Seq<u8>>,
}

/// The parts, over byte sequences.
pub open spec fn parts_view(m: Map<u32, Vec<u8>>) -> Map<u32, Seq<u8>> {
    Map::new(|i: u32| m.dom().contains(i), |i: u32| m[i]@)
}

impl View for ReassemblyBuffer {
    type V = Partial;

    open spec fn view(&self) -> Partial {
        Partial { total: self.total, fragments: parts_view(self.fragments@) }
    }
}

/// The unfinished messages, over mathematical values.
pub open spec fn partials_view(m: Map<u64, ReassemblyBuffer>) -> Map<u64, Partial> {
    Map::new(|k: u64| m.dom().contains(k), |k: u64| m[k]@)
}

/// A fragment.
pub open spec fn fragment_bytes(id: u64, index: nat, total: nat, part: Seq<u8>) -> Seq<u8> {
    wire::be(id as nat, 8) + wire::be(index, 2) + wire::be(total, 2) + part
}

/// The smallest number below `n` that is missing.
pub open spec fn first_missing(keys: Set<u32>, n: nat) -> nat {
    choose|i: nat|
        i < n && i <= u32::MAX && !keys.contains(i as u32) && #[trigger] pieces::all_below(keys, i)
}

/// The parts with the number `from` or a larger one.
pub open spec fn parts_from(fragments: Map<u32, Seq<u8>>, from: nat) -> Map<u32, Seq<u8>> {
    Map::new(|k: u32| fragments.dom().contains(k) && k >= from, |k: u32| fragments[k])
}

/// What a fragment does to the unfinished messages, and what it completes.
///
/// A message is complete when as many fragments have arrived as it has. Should one of
/// them carry a number that is too large, the parts below the first gap are dropped.
pub open spec fn take_fragment(known: Map<u64, Partial>, d: Seq<u8>) -> (
    Map<u64, Partial>,
    Result<Option<Seq<u8>>, TransportFault>,
) {
    if d.len() < 12 {
        (known, Err(TransportFault::InvalidChunkSize(d.len() as usize)))
    } else {
        let id = wire::be_value(d.subrange(0, 8)) as u64;
        let index = wire::be_value(d.subrange(8, 10)) as u32;
        let total = wire::be_value(d.subrange(10, 12)) as u16;
        let part = d.subrange(12, d.len() as int);
        let buffer = if known.dom().contains(id) {
            known[id]
        } else {
            Partial { total, fragments: Map::empty() }
        };
        let fragments = buffer.fragments.insert(index, part);
        if buffer.total != total {
            (known, Err(TransportFault::Other("fragment total mismatch"@)))
        } else if fragments.dom().len() != total {
            (known.insert(id, Partial { total, fragments }), Ok(None))
        } else if pieces::all_below(fragments.dom(), total as nat) {
            (known.remove(id), Ok(Some(pieces::joined(fragments, total as nat))))
        } else {
            let gap = first_missing(fragments.dom(), total as nat);
            (
                known.insert(id, Partial { total, fragments: parts_from(fragments, gap) }),
                Err(
                    TransportFault::ResourceSegmentOrder { expected: gap as u32, got: u32::MAX },
                ),
            )
        }
    }
}

proof fn lemma_fragment_fields(id: u64, index: nat, total: nat, part: Seq<u8>)
    requires
        index < 0x1_0000,
        total < 0x1_0000,
    ensures
        ({
            let d = fragment_bytes(id, index, total, part);
            &&& d.len() == 12 + part.len()
            &&& wire::be_value(d.subrange(0, 8)) == id
            &&& wire::be_value(d.subrange(8, 10)) == index
            &&& wire::be_value(d.subrange(10, 12)) == total
            &&& d.subrange(12, d.len() as int) == part
        }),
{
    wire::lemma_pow256_values();
    wire::lemma_be_roundtrip(id as nat, 8);
    wire::lemma_be_roundtrip(index, 2);
    wire::lemma_be_roundtrip(total, 2);
    let d = fragment_bytes(id, index, total, part);
    assert(d.subrange(0, 8) =~= wire::be(id as nat, 8));
    assert(d.subrange(8, 10) =~= wire::be(index, 2));
    assert(d.subrange(10, 12) =~= wire::be(total, 2));
    assert(d.subrange(12, d.len() as int) =~= part);
}

/// Whether the unfinished message `id` consists of parts of `data`.
pub open spec fn holds_parts(known: Map<u64, Partial>, id: u64, data: Seq<u8>, size: nat) -> bool {
    let n = pieces::piece_count(data.len(), size);
    known.dom().contains(id) ==> {
        &&& known[id].total == n
        &&& known[id].fragments.dom().finite()
        &&& forall|i: u32|
            known[id].fragments.dom().contains(i) ==> i < n && #[trigger] known[id].fragments[i]
                == pieces::piece(data, size, i as nat)
    }
}

/// The numbers of the parts of a message that have arrived.
pub open spec fn arrived(known: Map<u64, Partial>, id: u64) -> Set<u32> {
    if known.dom().contains(id) {
        known[id].fragments.dom()
    } else {
        Set::empty()
    }
}

/// Fragments may arrive in any order: each new one is kept until the last one of them
/// completes the message, which is then what was sent.
pub proof fn law_fragments_reassemble(
    known: Map<u64, Partial>,
    id: u64,
    data: Seq<u8>,
    size: nat,
    index: u32,
)
    requires
        size > 0,
        pieces::piece_count(data.len(), size) <= u16::MAX,
        index < pieces::piece_count(data.len(), size),
        holds_parts(known, id, data, size),
        !arrived(known, id).contains(index),
    ensures
        ({
            let n = pieces::piece_count(data.len(), size);
            let d = fragment_bytes(id, index as nat, n, pieces::piece(data, size, index as nat));
            let (after, r) = take_fragment(known, d);
            if pieces::all_below(arrived(known, id).insert(index), n) {
                r == Ok::<Option<Seq<u8>>, TransportFault>(Some(data)) && after == known.remove(id)
            } else {
                r == Ok::<Option<Seq<u8>>, TransportFault>(None) && holds_parts(
                    after,
                    id,
                    data,
                    size,
                ) && arrived(after, id) == arrived(known, id).insert(index)
            }
        }),
{
    let n = pieces::piece_count(data.len(), size);
    let part = pieces::piece(data, size, index as nat);
    lemma_fragment_fields(id, index as nat, n, part);
    let buffer = if known.dom().contains(id) {
        known[id]
    } else {
        Partial { total: n as u16, fragments: Map::empty() }
    };
    let fragments = buffer.fragments.insert(index, part);
    let keys = arrived(known, id).insert(index);
    assert(fragments.dom() =~= keys);
    assert forall|i: u32| keys.contains(i) implies i < n by {
        if i != index {
            assert(known[id].fragments[i] == pieces::piece(data, size, i as nat));
        }
    }
    pieces::lemma_all_below(keys, n);
    if pieces::all_below(keys, n) {
        assert forall|i: u32| i < n implies #[trigger] fragments[i] == pieces::piece(
            data,
            size,
            i as nat,
        ) by {
            assert(keys.contains(i));
            if i != index {
                assert(known[id].fragments[i] == pieces::piece(data, size, i as nat));
            }
        }
        pieces::law_pieces_rejoin(data, size, fragments, n);
    } else {
        let d = fragment_bytes(id, index as nat, n, part);
        let (after, r) = take_fragment(known, d);
        assert(after[id].fragments == fragments);
        assert forall|i: u32| fragments.dom().contains(i) implies i < n && #[trigger] fragments[i]
            == pieces::piece(data, size, i as nat) by {
            if i != index {
                assert(known[id].fragments[i] == pieces::piece(data, size, i as nat));
            }
        }
    }
}

/// Fragment `i` of a message.
pub open spec fn fragment_of(id: u64, data: Seq<u8>, size: nat, i: u32) -> Seq<u8> {
    fragment_bytes(
        id,
        i as nat,
        pieces::piece_count(data.len(), size),
        pieces::piece(data, size, i as nat),
    )
}

/// The unfinished messages after fragments of a message have arrived in some order.
pub open spec fn after_fragments(
    known: Map<u64, Partial>,
    id: u64,
    data: Seq<u8>,
    size: nat,
    order: Seq<u32>,
) -> Map<u64, Partial>
    decreases order.len(),
{
    if order.len() == 0 {
        known
    } else {
        take_fragment(
            after_fragments(known, id, data, size, order.drop_last()),
            fragment_of(id, data, size, order.last()),
        ).0
    }
}

proof fn lemma_after_fragments(
    known: Map<u64, Partial>,
    id: u64,
    data: Seq<u8>,
    size: nat,
    order: Seq<u32>,
    k: int,
)
    requires
        size > 0,
        pieces::piece_count(data.len(), size) <= u16::MAX,
        !known.dom().contains(id),
        order.no_duplicates(),
        forall|j: int|
            0 <= j < order.len() ==> #[trigger] order[j] < pieces::piece_count(data.len(), size),
        0 <= k < order.len(),
    ensures
        holds_parts(
            after_fragments(known, id, data, size, order.subrange(0, k)),
            id,
            data,
            size,
        ),
        arrived(after_fragments(known, id, data, size, order.subrange(0, k)), id)
            == order.subrange(0, k).to_set(),
    decreases k,
{
    let now = order.subrange(0, k);
    if k == 0 {
        assert(now.to_set() =~= Set::<u32>::empty());
    } else {
        let before = order.subrange(0, k - 1);
        let i = order[k - 1];
        lemma_after_fragments(known, id, data, size, order, k - 1);
        assert(now.drop_last() =~= before);
        let state = after_fragments(known, id, data, size, before);
        assert(!before.contains(i)) by {
            if before.contains(i) {
                let j = choose|j: int| 0 <= j < before.len() && before[j] == i;
                assert(order[j] == order[k - 1]);
            }
        }
        assert(!arrived(state, id).contains(i));
        law_fragments_reassemble(state, id, data, size, i);
        let missing = order[k];
        assert(!arrived(state, id).insert(i).contains(missing)) by {
            if before.contains(missing) {
                let j = choose|j: int| 0 <= j < before.len() && before[j] == missing;
                assert(order[j] == order[k]);
            }
            assert(order[k - 1] != order[k]);
        }
        assert(now.to_set() =~= before.to_set().insert(i)) by {
            assert forall|x: u32| now.to_set().contains(x) <==> before.to_set().insert(i).contains(
                x,
            ) by {
                if now.contains(x) {
                    let j = choose|j: int| 0 <= j < now.len() && now[j] == x;
                    if j < k - 1 {
                        assert(before[j] == x);
                    }
                }
                if before.contains(x) {
                    let j = choose|j: int| 0 <= j < before.len() && before[j] == x;
                    assert(now[j] == x);
                }
                assert(now[k - 1] == i);
            }
        }
    }
}

/// A message crosses in fragments: in whatever order all of them arrive, each one but
/// the last is kept, and the last one gives the message back.
pub proof fn law_message_crosses(
    known: Map<u64, Partial>,
    id: u64,
    data: Seq<u8>,
    size: nat,
    order: Seq<u32>,
    k: int,
)
    requires
        size > 0,
        pieces::piece_count(data.len(), size) <= u16::MAX,
        !known.dom().contains(id),
        order.no_duplicates(),
        forall|j: int|
            0 <= j < order.len() ==> #[trigger] order[j] < pieces::piece_count(data.len(), size),
        forall|i: u32| i < pieces::piece_count(data.len(), size) ==> order.contains(i),
        0 <= k < order.len(),
    ensures
        take_fragment(
            after_fragments(known, id, data, size, order.subrange(0, k)),
            fragment_of(id, data, size, order[k]),
        ).1 == Ok::<Option<Seq<u8>>, TransportFault>(
            if k + 1 < order.len() {
                None
            } else {
                Some(data)
            },
        ),
{
    let n = pieces::piece_count(data.len(), size);
    let before = order.subrange(0, k);
    let state = after_fragments(known, id, data, size, before);
    let i = order[k];
    lemma_after_fragments(known, id, data, size, order, k);
    assert(!before.contains(i)) by {
        if before.contains(i) {
            let j = choose|j: int| 0 <= j < before.len() && before[j] == i;
            assert(order[j] == order[k]);
        }
    }
    law_fragments_reassemble(state, id, data, size, i);
    let keys = arrived(state, id).insert(i);
    if k + 1 < order.len() {
        let missing = order[k + 1];
        assert(!keys.contains(missing)) by {
            if before.contains(missing) {
                let j = choose|j: int| 0 <= j < before.len() && before[j] == missing;
                assert(order[j] == order[k + 1]);
            }
            assert(order[k] != order[k + 1]);
        }
    } else {
        assert forall|x: u32| x < n implies #[trigger] keys.contains(x) by {
            assert(order.contains(x));
            let j = choose|j: int| 0 <= j < order.len() && order[j] == x;
            if j < k {
                assert(before[j] == x);
            }
        }
    }
}

/// Messages on their way in and out.
pub struct PacketTransport {
    /// Received packets that are no fragments.
    pub inbound: Vec<Packet>,
    /// Packets that were made for sending.
    pub outbound: Vec<Packet>,
    pub mtu: u16,
    /// Unfinished messages, by id.
    pub reassembly: HashMap<u64, ReassemblyBuffer>,
}

/// The packet of a fragment.
pub open spec fn fragment_packet(destination: Seq<u8>, bytes: Seq<u8>) -> PacketModel {
    PacketModel {
        header_type: packet::HEADER_1,
        context_flag: packet::FLAG_UNSET,
        transport_type: packet::TRANSPORT_BROADCAST,
        destination_type: packet::DEST_SINGLE,
        packet_type: packet::DATA,
        hops: packet::MAX_HOPS,
        destination_hash: destination,
        transport_id: None,
        context: packet::RESOURCE,
        data: bytes,
    }
}

/// The packet of a whole message.
pub open spec fn message_packet(destination: Seq<u8>, data: Seq<u8>) -> PacketModel {
    PacketModel { context: packet::NONE, ..fragment_packet(destination, data) }
}

/// The packets of a message: one where it fits, else its fragments.
pub open spec fn packets_of(mtu: u16, destination: Seq<u8>, data: Seq<u8>, id: u64) -> Seq<
    PacketModel,
> {
    let size = payload_limit(mtu);
    if data.len() <= size {
        seq![message_packet(destination, data)]
    } else {
        let n = pieces::piece_count(data.len(), size);
        Seq::new(
            n,
            |i: int|
                fragment_packet(
                    destination,
                    fragment_bytes(id, i as nat, n, pieces::piece(data, size, i as nat)),
                ),
        )
    }
}

/// What taking in a packet returns, and what the transport becomes: a fragment is kept
/// until its message is complete; any other packet is a whole message.
pub open spec fn packet_received(
    before: PacketTransport,
    p: Packet,
    r: Result<Option<Vec<u8>>, TransportError>,
    after: PacketTransport,
) -> bool {
    &&& after.mtu == before.mtu
    &&& after.outbound == before.outbound
    &&& p.context != packet::RESOURCE ==> {
        &&& r matches Ok(Some(m)) && m@ == p.data@
        &&& after.reassembly == before.reassembly
        &&& packet::models(after.inbound@) == packet::models(before.inbound@).push(p@)
    }
    &&& p.context == packet::RESOURCE ==> {
        &&& after.inbound == before.inbound
        &&& after.partials() == take_fragment(before.partials(), p.data@).0
        &&& received_view(r) == take_fragment(before.partials(), p.data@).1
    }
}

proof fn lemma_partials_follow(
    id: u64,
    data: Seq<u8>,
    size: nat,
    order: Seq<u32>,
    packets: Seq<Packet>,
    states: Seq<PacketTransport>,
    results: Seq<Result<Option<Vec<u8>>, TransportError>>,
    k: int,
)
    requires
        packets.len() == order.len(),
        results.len() == order.len(),
        states.len() == order.len() + 1,
        forall|i: int|
            0 <= i < order.len() ==> (#[trigger] packets[i]).context == packet::RESOURCE
                && packets[i].data@ == fragment_of(id, data, size, order[i]),
        forall|i: int|
            0 <= i < order.len() ==> packet_received(
                states[i],
                #[trigger] packets[i],
                results[i],
                states[i + 1],
            ),
        0 <= k <= order.len(),
    ensures
        states[k].partials() == after_fragments(
            states[0].partials(),
            id,
            data,
            size,
            order.subrange(0, k),
        ),
    decreases k,
{
    let now = order.subrange(0, k);
    if k > 0 {
        lemma_partials_follow(id, data, size, order, packets, states, results, k - 1);
        assert(now.drop_last() =~= order.subrange(0, k - 1));
        assert(packet_received(states[k - 1], packets[k - 1], results[k - 1], states[k]));
    }
}

/// The packets of a message are handed, each once and in whatever order, to a transport
/// that knows nothing of it: every call but the last returns nothing, and the last one
/// returns the message. `states` and `results` are what the calls of
/// [`PacketTransport::recv_packet`] make and return; a message can have 65535 fragments.
pub proof fn law_packets_received(
    mtu: u16,
    destination: Seq<u8>,
    data: Seq<u8>,
    id: u64,
    order: Seq<u32>,
    packets: Seq<Packet>,
    states: Seq<PacketTransport>,
    results: Seq<Result<Option<Vec<u8>>, TransportError>>,
)
    requires
        payload_limit(mtu) > 0,
        pieces::piece_count(data.len(), payload_limit(mtu)) <= u16::MAX,
        order.len() == packets_of(mtu, destination, data, id).len(),
        pieces::any_order(order),
        packets.len() == order.len(),
        forall|i: int|
            0 <= i < order.len() ==> (#[trigger] packets[i])@ == packets_of(
                mtu,
                destination,
                data,
                id,
            )[order[i] as int],
        !states[0].partials().dom().contains(id),
        states.len() == order.len() + 1,
        results.len() == order.len(),
        forall|i: int|
            0 <= i < order.len() ==> packet_received(
                states[i],
                #[trigger] packets[i],
                results[i],
                states[i + 1],
            ),
    ensures
        forall|i: int|
            0 <= i < order.len() ==> #[trigger] received_view(results[i]) == Ok::<
                Option<Seq<u8>>,
                TransportFault,
            >(
                if i == order.len() - 1 {
                    Some(data)
                } else {
                    None
                },
            ),
{
    let size = payload_limit(mtu);
    let made = packets_of(mtu, destination, data, id);
    if data.len() <= size {
        assert(packets[0]@ == made[order[0] as int]);
        assert(packets[0]@.context == packet::NONE && packets[0]@.data == data);
        assert(packet_received(states[0], packets[0], results[0], states[1]));
    } else {
        pieces::lemma_any_order(order);
        assert forall|i: int| 0 <= i < order.len() implies (#[trigger] packets[i]).context
            == packet::RESOURCE && packets[i].data@ == fragment_of(id, data, size, order[i]) by {
            let j = order[i];
            assert(j < order.len());
            assert(packets[i]@ == made[j as int]);
            assert(packets[i]@.context == packet::RESOURCE);
            assert(packets[i]@.data == fragment_of(id, data, size, j));
        }
        assert forall|i: int| 0 <= i < order.len() implies #[trigger] received_view(results[i])
            == Ok::<Option<Seq<u8>>, TransportFault>(
            if i == order.len() - 1 {
                Some(data)
            } else {
                None
            },
        ) by {
            lemma_partials_follow(id, data, size, order, packets, states, results, i);
            law_message_crosses(states[0].partials(), id, data, size, order, i);
            assert(packet_received(states[i], packets[i], results[i], states[i + 1]));
        }
    }
}

impl PacketTransport {
    /// The unfinished messages.
    pub open spec fn partials(&self) -> Map<u64, Partial> {
        partials_view(self.reassembly@)
    }

    /// A transport with the default MTU.
    pub fn new() -> (t: Self)
        ensures
            t.mtu == DEFAULT_MTU,
            t.inbound@.len() == 0,
            t.outbound@.len() == 0,
            t.partials() == Map::<u64, Partial>::empty(),
    {
        PacketTransport::with_mtu(DEFAULT_MTU)
    }

    /// A transport with the given MTU.
    pub fn with_mtu(mtu: u16) -> (t: Self)
        ensures
            t.mtu == mtu,
            t.inbound@.len() == 0,
            t.outbound@.len() == 0,
            t.partials() == Map::<u64, Partial>::empty(),
    {
        let t = PacketTransport {
            inbound: Vec::new(),
            outbound: Vec::new(),
            mtu,
            reassembly: HashMap::new(),
        };
        assert(t.partials() =~= Map::<u64, Partial>::empty());
        t
    }

    /// The MTU.
    pub fn mtu(&self) -> (m: u16)
        ensures
            m == self.mtu,
    {
        self.mtu
    }

    /// How many whole messages have arrived and were not drained.
    pub fn pending_inbound(&self) -> (n: usize)
        ensures
            n == self.inbound@.len(),
    {
        self.inbound.len()
    }

    /// How many packets were made for sending.
    pub fn pending_outbound(&self) -> (n: usize)
        ensures
            n == self.outbound@.len(),
    {
        self.outbound.len()
    }

    /// Makes the packets of a message, with a random message id where it is cut into
    /// fragments. The MTU must leave room for a payload, unless the message is empty.
    pub fn send_packet(&mut self, destination: RnsAddress, data: Vec<u8>) -> (r: Result<
        Vec<Packet>,
        TransportError,
    >)
        requires
            payload_limit(old(self).mtu) > 0 || data@.len() == 0,
        ensures
            r is Ok,
            exists|id: u64|
                packet::models(r->Ok_0@) == #[trigger] packets_of(
                    old(self).mtu,
                    destination@,
                    data@,
                    id,
                ),
            *final(self) == (PacketTransport { outbound: final(self).outbound, ..*old(self) }),
            packet::models(final(self).outbound@) == packet::models(old(self).outbound@)
                + packet::models(r->Ok_0@),
    {
        let id: u64 = primitives::random_u64();
        Ok(self.send_packet_as(destination, data, id))
    }

    /// Makes the packets of a message with the given message id.
    pub fn send_packet_as(&mut self, destination: RnsAddress, data: Vec<u8>, id: u64) -> (r: Vec<
        Packet,
    >)
        requires
            payload_limit(old(self).mtu) > 0 || data@.len() == 0,
        ensures
            packet::models(r@) == packets_of(old(self).mtu, destination@, data@, id),
            *final(self) == (PacketTransport { outbound: final(self).outbound, ..*old(self) }),
            packet::models(final(self).outbound@) == packet::models(old(self).outbound@)
                + packet::models(r@),
    {
        let size: usize = max_payload(self.mtu);
        let mut packets: Vec<Packet> = Vec::new();
        let ghost sent = packet::models(self.outbound@);
        if data.len() <= size {
            let p: Packet = Packet::new_data(destination, data);
            self.outbound.push(p.duplicate());
            packets.push(p);
            assert(packet::models(packets@) =~= packets_of(self.mtu, destination@, data@, id));
            assert(packet::models(self.outbound@) =~= sent + packet::models(packets@));
            return packets;
        }
        let parts: Vec<Vec<u8>> = pieces::split(data.as_slice(), size);
        let n: usize = parts.len();
        let ghost all = wire::all_bytes(parts@);
        let mut i: usize = 0;
        assert(sent + packet::models(packets@) =~= packet::models(self.outbound@));
        while i < n
            invariant
                i <= n == parts@.len(),
                size == payload_limit(old(self).mtu),
                data@.len() > size,
                all == wire::all_bytes(parts@),
                all == Seq::new(
                    pieces::piece_count(data@.len(), size as nat),
                    |j: int| pieces::piece(data@, size as nat, j as nat),
                ),
                packets@.len() == i,
                forall|j: int|
                    0 <= j < i ==> packet::models(packets@)[j] == fragment_packet(
                        destination@,
                        fragment_bytes(id, j as nat, n as nat, all[j]),
                    ),
                *self == (PacketTransport { outbound: self.outbound, ..*old(self) }),
                packet::models(self.outbound@) == sent + packet::models(packets@),
            decreases n - i,
        {
            let mut bytes: Vec<u8> = Vec::new();
            wire::push_be(&mut bytes, id, 8);
            wire::push_be(&mut bytes, i as u64, 2);
            wire::push_be(&mut bytes, n as u64, 2);
            wire::push_all(&mut bytes, parts[i].as_slice());
            assert(bytes@ =~= fragment_bytes(id, i as nat, n as nat, all[i as int]));
            let mut p: Packet = Packet::new_data(destination, bytes);
            p.context = packet::RESOURCE;
            assert(p@ =~= fragment_packet(destination@, bytes@));
            let ghost before = packets@;
            let ghost queue = self.outbound@;
            self.outbound.push(p.duplicate());
            assert(packet::models(self.outbound@) =~= packet::models(queue).push(p@));
            packets.push(p);
            assert(packet::models(packets@) =~= packet::models(before).push(p@));
            assert(packet::models(self.outbound@) =~= sent + packet::models(packets@));
            i = i + 1;
        }
        proof {
            let made = packets_of(self.mtu, destination@, data@, id);
            assert(all.len() == parts@.len());
            assert(n == pieces::piece_count(data@.len(), size as nat));
            assert forall|j: int| 0 <= j < n implies packet::models(packets@)[j] == made[j] by {
                assert(all[j] == pieces::piece(data@, size as nat, j as nat));
            }
            assert(packet::models(packets@) =~= made);
        }
        packets
    }

    /// Takes in a packet. A fragment is kept until its message is complete; any other
    /// packet is a whole message.
    pub fn recv_packet(&mut self, p: Packet) -> (r: Result<Option<Vec<u8>>, TransportError>)
        ensures
            packet_received(*old(self), p, r, *final(self)),
    {
        if p.context == packet::RESOURCE {
            self.reassemble_fragment(p)
        } else {
            let data: Vec<u8> = wire::copy_all(p.data.as_slice());
            self.inbound.push(p);
            assert(packet::models(self.inbound@) =~= packet::models(old(self).inbound@).push(p@));
            Ok(Some(data))
        }
    }

    /// The whole messages that have arrived, in order; none is left.
    pub fn drain(&mut self) -> (messages: Vec<Vec<u8>>)
        ensures
            messages@.len() == old(self).inbound@.len(),
            forall|i: int|
                0 <= i < messages@.len() ==> (#[trigger] messages@[i])@ == old(
                    self).inbound@[i].data@,
            final(self).inbound@.len() == 0,
            *final(self) == (PacketTransport { inbound: final(self).inbound, ..*old(self) }),
    {
        let mut messages: Vec<Vec<u8>> = Vec::new();
        let mut i: usize = 0;
        while i < self.inbound.len()
            invariant
                i <= self.inbound@.len(),
                *self == *old(self),
                messages@.len() == i,
                forall|j: int|
                    0 <= j < i ==> (#[trigger] messages@[j])@ == self.inbound@[j].data@,
            decreases self.inbound@.len() - i,
        {
            messages.push(wire::copy_all(self.inbound[i].data.as_slice()));
            i = i + 1;
        }
        self.inbound.clear();
        messages
    }

    /// Drops everything that is queued or unfinished.
    pub fn clear(&mut self)
        ensures
            final(self).mtu == old(self).mtu,
            final(self).inbound@.len() == 0,
            final(self).outbound@.len() == 0,
            final(self).partials() == Map::<u64, Partial>::empty(),
    {
        self.inbound.clear();
        self.outbound.clear();
        self.reassembly.clear();
        assert(self.partials() =~= Map::<u64, Partial>::empty());
    }

    /// Takes in a fragment.
    fn reassemble_fragment(&mut self, p: Packet) -> (r: Result<Option<Vec<u8>>, TransportError>)
        ensures
            final(self).mtu == old(self).mtu,
            final(self).outbound == old(self).outbound,
            final(self).inbound == old(self).inbound,
            final(self).partials() == take_fragment(old(self).partials(), p.data@).0,
            received_view(r) == take_fragment(old(self).partials(), p.data@).1,
    {
        let d: &Vec<u8> = &p.data;
        if d.len() < 12 {
            return Err(TransportError::InvalidChunkSize(d.len()));
        }
        proof {
            wire::lemma_pow256_values();
        }
        let id: u64 = wire::read_be(d.as_slice(), 0, 8);
        let index: u32 = wire::read_be(d.as_slice(), 8, 2) as u32;
        let total: u16 = wire::read_be(d.as_slice(), 10, 2) as u16;
        let part: Vec<u8> = wire::copy_range(d.as_slice(), 12, d.len());
        let ghost known = self.partials();
        let ghost at_start = self.reassembly@;
        let mut buffer: ReassemblyBuffer = match self.reassembly.remove(&id) {
            Some(b) => b,
            None => ReassemblyBuffer { total, fragments: HashMap::new() },
        };
        let ghost taken = self.reassembly@;
        proof {
            assert(partials_view(taken) =~= known.remove(id));
            if !known.dom().contains(id) {
                assert(buffer@ =~= Partial { total, fragments: Map::empty() });
            }
        }
        if buffer.total != total {
            self.reassembly.insert(id, buffer);
            assert(self.partials() =~= known);
            return Err(TransportError::Other("fragment total mismatch".to_owned()));
        }
        let ghost before = buffer@.fragments;
        buffer.fragments.insert(index, part);
        let ghost fragments = buffer@.fragments;
        assert(fragments =~= before.insert(index, part@));
        assert(fragments.dom() =~= buffer.fragments@.dom());
        if buffer.fragments.len() != total as usize {
            self.reassembly.insert(id, buffer);
            assert(self.partials() =~= known.insert(id, Partial { total, fragments }));
            return Ok(None);
        }
        let ghost keys = fragments.dom();
        let mut assembled: Vec<u8> = Vec::new();
        let mut i: u16 = 0;
        while i < total
            invariant
                i <= total,
                keys == fragments.dom(),
                keys.len() == total,
                pieces::all_below(keys, i as nat),
                assembled@ == pieces::joined(fragments, i as nat),
                buffer.total == total,
                parts_view(buffer.fragments@) == parts_from(fragments, i as nat),
                self.reassembly@ == taken,
                partials_view(taken) == known.remove(id),
                self.mtu == old(self).mtu,
                self.outbound == old(self).outbound,
                self.inbound == old(self).inbound,
                take_fragment(old(self).partials(), p.data@) == (if pieces::all_below(
                    keys,
                    total as nat,
                ) {
                    (known.remove(id), Ok(Some(pieces::joined(fragments, total as nat))))
                } else {
                    let gap = first_missing(keys, total as nat);
                    (
                        known.insert(
                            id,
                            Partial { total, fragments: parts_from(fragments, gap) },
                        ),
                        Err(
                            TransportFault::ResourceSegmentOrder {
                                expected: gap as u32,
                                got: u32::MAX,
                            },
                        ),
                    )
                }),
            decreases total - i,
        {
            let key: u32 = i as u32;
            let ghost current = parts_view(buffer.fragments@);
            let ghost stored = buffer.fragments@;
            assert(current.dom().contains(key) == buffer.fragments@.dom().contains(key));
            match buffer.fragments.remove(&key) {
                Some(data) => {
                    proof {
                        assert(keys.contains(key));
                        assert(data@ == current[key]);
                        assert(buffer.fragments@ == stored.remove(key));
                        assert forall|k: u32| k < i + 1 implies #[trigger] keys.contains(k) by {
                            if k < i {
                                assert(pieces::all_below(keys, i as nat));
                            }
                        }
                        let rest = parts_view(buffer.fragments@);
                        let later = parts_from(fragments, (i + 1) as nat);
                        assert forall|k: u32| rest.dom().contains(k) <==> later.dom().contains(k) by {
                            assert(stored.dom().contains(k) <==> current.dom().contains(k));
                        }
                        assert forall|k: u32| rest.dom().contains(k) implies rest[k] == later[k] by {
                            assert(stored[k]@ == current[k]);
                        }
                        assert(rest =~= later);
                    }
                    wire::push_all(&mut assembled, data.as_slice());
                    i = i + 1;
                },
                None => {
                    proof {
                        assert(!keys.contains(key));
                        assert(!pieces::all_below(keys, total as nat));
                        lemma_gap(keys, total as nat, i as nat);
                        assert(parts_view(buffer.fragments@) =~= current);
                        lemma_put_back(taken, id, buffer);
                        assert(buffer@ =~= Partial {
                            total,
                            fragments: parts_from(fragments, i as nat),
                        });
                        assert(known.remove(id).insert(id, buffer@) =~= known.insert(id, buffer@));
                    }
                    self.reassembly.insert(id, buffer);
                    return Err(
                        TransportError::ResourceSegmentOrder { expected: key, got: u32::MAX },
                    );
                },
            }
        }
        assert(self.partials() =~= known.remove(id));
        Ok(Some(assembled))
    }
}

proof fn lemma_put_back(m: Map<u64, ReassemblyBuffer>, id: u64, b: ReassemblyBuffer)
    ensures
        partials_view(m.insert(id, b)) == partials_view(m).insert(id, b@),
{
    assert(partials_view(m.insert(id, b)) =~= partials_view(m).insert(id, b@));
}

/// The first number that is missing is determined.
proof fn lemma_gap(keys: Set<u32>, n: nat, i: nat)
    requires
        i < n,
        i <= u32::MAX,
        pieces::all_below(keys, i),
        !keys.contains(i as u32),
    ensures
        first_missing(keys, n) == i,
{
    let g = first_missing(keys, n);
    assert(g < n && g <= u32::MAX && !keys.contains(g as u32) && pieces::all_below(keys, g));
    if g < i {
        assert(keys.contains(g as u32));
    } else if i < g {
        assert(keys.contains(i as u32));
    }
}

/// What receiving a packet returned, over byte sequences.
pub open spec fn received_view(r: Result<Option<Vec<u8>>, TransportError>) -> Result<
    Option<Seq<u8>>,
    TransportFault,
> {
    match r {
        Ok(Some(m)) => Ok(Some(m@)),
        Ok(None) => Ok(None),
        Err(e) => Err(e@),
    }
}

/// Makes the packet of a message.
pub fn send_packet(destination: RnsAddress, data: Vec<u8>) -> (p: Packet)
    ensures
        p@ == message_packet(destination@, data@),
{
    Packet::new_data(destination, data)
}

/// The message in a packet.
pub fn recv_packet(p: &Packet) -> (data: Vec<u8>)
    ensures
        data@ == p.data@,
{
    wire::copy_all(p.data.as_slice())
}

/// A packet with the longest header and the largest payload has the size of the MTU.
pub proof fn law_payload_fits(mtu: u16)
    ensures
        mtu >= 35 ==> payload_limit(mtu) + packet::HEADER_MAXSIZE == mtu,
        mtu < 35 ==> payload_limit(mtu) == 0,
{
}

/// A message that fits into one packet is sent in one, as it is. A longer one is sent in as
/// many fragments as it has pieces, each of which tells the message, its own number, the
/// number of all and its piece. All go to the destination.
pub proof fn law_packets_of_message(
    mtu: u16,
    destination: Seq<u8>,
    data: Seq<u8>,
    id: u64,
    i: int,
)
    requires
        payload_limit(mtu) > 0,
        pieces::piece_count(data.len(), payload_limit(mtu)) <= u16::MAX,
        0 <= i < packets_of(mtu, destination, data, id).len(),
    ensures
        ({
            let all = packets_of(mtu, destination, data, id);
            let size = payload_limit(mtu);
            &&& all[i].destination_hash == destination
            &&& all[i].packet_type == packet::DATA
            &&& (data.len() + 35 <= mtu ==> all.len() == 1 && all[0].data == data && all[0].context
                == packet::NONE)
            &&& (data.len() + 35 > mtu ==> {
                let d = all[i].data;
                &&& all[i].context == packet::RESOURCE
                &&& all.len() > 1
                &&& (all.len() - 1) * size < data.len() <= all.len() * size
                &&& wire::be_value(d.subrange(0, 8)) == id
                &&& d[8] * 256 + d[9] == i
                &&& d[10] * 256 + d[11] == all.len()
                &&& 12 < d.len() <= 12 + size
                &&& (i + 1 < all.len() ==> d.len() == 12 + size)
                &&& forall|j: int| 12 <= j < d.len() ==> #[trigger] d[j] == data[i * size + j - 12]
            })
        }),
{
    let all = packets_of(mtu, destination, data, id);
    let size = payload_limit(mtu);
    if data.len() + 35 > mtu {
        let n = pieces::piece_count(data.len(), size);
        let part = pieces::piece(data, size, i as nat);
        let d = all[i].data;
        pieces::law_piece_sizes(data, size, i as nat);
        lemma_fragment_fields(id, i as nat, n, part);
        let a = d.subrange(8, 10);
        let b = d.subrange(10, 12);
        wire::law_most_significant_first(a.subrange(0, 1), a.subrange(1, 2), a[0]);
        wire::law_most_significant_first(b.subrange(0, 1), b.subrange(1, 2), b[0]);
        wire::law_most_significant_first(a, b, a[1]);
        wire::law_most_significant_first(a, b, b[1]);
        assert(a.subrange(0, 1) =~= seq![a[0]]);
        assert(a.subrange(1, 2) =~= seq![a[1]]);
        assert(b.subrange(0, 1) =~= seq![b[0]]);
        assert(b.subrange(1, 2) =~= seq![b[1]]);
        assert(a =~= a.subrange(0, 1) + a.subrange(1, 2));
        assert(b =~= b.subrange(0, 1) + b.subrange(1, 2));
        wire::lemma_pow256_values();
        if n == 1 {
            assert((n - 1) * size == 0 && n * size == size) by (nonlinear_arith)
                requires
                    n == 1,
            ;
        }
        assert forall|j: int| 12 <= j < d.len() implies #[trigger] d[j] == data[i * size + j
            - 12] by {
            assert(d.subrange(12, d.len() as int)[j - 12] == d[j]);
            assert(part[j - 12] == data[i as nat * size + (j - 12)]);
        }
    }
}

/// What is too short for a fragment is refused, and so is one that tells another number of
/// fragments than those that came before it; what has come stays as it is.
pub proof fn law_bad_fragment_is_refused(known: Map<u64, Partial>, d: Seq<u8>)
    ensures
        d.len() < 12 ==> take_fragment(known, d).1 is Err && take_fragment(known, d).0 == known,
        d.len() >= 12 && ({
            let id = wire::be_value(d.subrange(0, 8)) as u64;
            known.dom().contains(id) && known[id].total != wire::be_value(d.subrange(10, 12)) as u16
        }) ==> take_fragment(known, d).1 is Err && take_fragment(known, d).0 == known,
{
}

/// A packet that is no fragment is a message at once, and is kept as received.
pub proof fn law_plain_packet_is_message(
    before: PacketTransport,
    p: Packet,
    r: Result<Option<Vec<u8>>, TransportError>,
    after: PacketTransport,
)
    requires
        packet_received(before, p, r, after),
        p.context != packet::RESOURCE,
    ensures
        r matches Ok(Some(m)) && m@ == p.data@,
        after.inbound@.len() == before.inbound@.len() + 1,
        after.inbound@.last()@ == p@,
        after.partials() == before.partials(),
{
    assert(packet::models(after.inbound@).last() == p@);
    assert(packet::models(after.inbound@).len() == packet::models(before.inbound@).len() + 1);
}

/// What was received and not yet taken is handed out once, whole and in order.
pub proof fn law_drained_once(
    t: &mut PacketTransport,
    messages: Vec<Vec<u8>>,
    u: &mut PacketTransport,
    again: Vec<Vec<u8>>,
)
    requires
        call_ensures(PacketTransport::drain, (t,), messages),
        *old(u) == *final(t),
        call_ensures(PacketTransport::drain, (u,), again),
    ensures
        messages@.len() == old(t).inbound@.len(),
        forall|i: int|
            0 <= i < messages@.len() ==> (#[trigger] messages@[i])@ == old(t).inbound@[i].data@,
        again@.len() == 0,
        final(u).outbound@ == old(t).outbound@,
        final(u).partials() == old(t).partials(),
{
}

} // verus!
