//! Channels: reliable in-order messages over a link.

pub mod message;

pub use message::{ChannelEnvelope, EnvelopeError, MessageBase, SystemMessageType};

use crate::packet::{Packet, PacketModel};
use crate::text;
use crate::transport::error::TransportFault;
use crate::transport::link;
use crate::transport::{Link, TransportError};
use crate::wire;
use std::collections::{HashMap, HashSet, VecDeque};
use vstd::prelude::*;

verus! {

broadcast use vstd::std_specs::hash::group_hash_axioms;

#[derive(Debug, PartialEq, Eq, Clone)]
pub enum ChannelError {
    LinkNotReady,
    /// The message has more bytes (first) than the channel takes (second).
    MessageTooLarge(usize, usize),
    Transport(TransportError),
}

impl ChannelError {
    /// The text of the error.
    pub open spec fn message(&self) -> Seq<char> {
        match *self {
            ChannelError::LinkNotReady => "link not established"@,
            ChannelError::MessageTooLarge(n, m) => "message too large: "@ + text::decimal(n as nat)
                + " bytes > MDU "@ + text::decimal(m as nat),
            ChannelError::Transport(e) => "transport error: "@
                + crate::transport::error::transport_message(e@),
        }
    }

    /// The message that describes the error.
    pub fn to_string(&self) -> (out: String)
        ensures
            out@ == self.message(),
    {
        match self {
            ChannelError::LinkNotReady => "link not established".to_owned(),
            ChannelError::MessageTooLarge(n, m) => {
                let mut out: String = text::join(
                    "message too large: ",
                    text::to_decimal(*n as u64).as_str(),
                );
                out.append(" bytes > MDU ");
                out.append(text::to_decimal(*m as u64).as_str());
                out
            },
            ChannelError::Transport(e) => text::join("transport error: ", e.to_string().as_str()),
        }
    }
}

/// How far ahead of the next expected message a message may be.
pub const REORDER_WINDOW: u32 = 1000;

/// What the receiving side of a channel knows: the next expected sequence number, the
/// messages that are ahead of it, the messages that are ready, the message types that
/// have a handler, and what was handed to handlers.
#[verifier::ext_equal]
pub struct Receiving {
    pub next: u32,
    pub ahead: Map<u32, Seq<u8>>,
    pub ready: Seq<Seq<u8>>,
    pub handled: Set<u16>,
    pub dispatched: Seq<(u16, Seq<u8>)>,
}

/// The sequence number after `n`.
pub open spec fn after(n: u32) -> u32 {
    if n == u32::MAX {
        0
    } else {
        (n + 1) as u32
    }
}

/// Moves the messages that are now in order to the ready ones.
pub open spec fn settled(s: Receiving) -> Receiving
    decreases s.ahead.dom().len(),
    when s.ahead.dom().finite()
{
    if s.ahead.dom().contains(s.next) {
        settled(
            Receiving {
                next: after(s.next),
                ahead: s.ahead.remove(s.next),
                ready: s.ready.push(s.ahead[s.next]),
                ..s
            },
        )
    } else {
        s
    }
}

/// What a message does. One whose type has a handler goes there. Otherwise the expected
/// one is ready, with those that follow it; one that is not too far ahead is kept; any
/// other is dropped.
pub open spec fn accept(s: Receiving, message_type: u16, seq: u32, payload: Seq<u8>) -> Receiving {
    if s.handled.contains(message_type) {
        Receiving { dispatched: s.dispatched.push((message_type, payload)), ..s }
    } else if seq == s.next {
        settled(Receiving { next: after(s.next), ready: s.ready.push(payload), ..s })
    } else if seq > s.next && seq - s.next < REORDER_WINDOW {
        Receiving { ahead: s.ahead.insert(seq, payload), ..s }
    } else {
        s
    }
}

/// What is wrong with a message that is no envelope.
pub open spec fn envelope_fault(n: nat) -> TransportFault {
    TransportFault::Other("envelope: "@ + EnvelopeError::TooShort(n as usize).message())
}

/// What some messages do, up to the first that is no envelope: the state after them,
/// the messages that are left, and what is wrong.
pub open spec fn accept_all(s: Receiving, messages: Seq<Seq<u8>>) -> (
    Receiving,
    Seq<Seq<u8>>,
    Option<TransportFault>,
)
    decreases messages.len(),
{
    if messages.len() == 0 {
        (s, messages, None)
    } else {
        let rest = messages.subrange(1, messages.len() as int);
        match message::parsed_envelope(messages[0]) {
            Some((t, seq, payload)) => accept_all(accept(s, t, seq, payload), rest),
            None => (s, rest, Some(envelope_fault(messages[0].len()))),
        }
    }
}

// --- Order ---

/// Whether a receiver has the messages of a sender: those before `next` are ready,
/// except the first `taken`, which were taken out; those that are kept are the
/// sender's, and have at least the number `from`.
pub open spec fn tracks(s: Receiving, sent: Seq<Seq<u8>>, first: u32, taken: nat, from: int) -> bool {
    &&& s.ahead.dom().finite()
    &&& first + sent.len() <= u32::MAX
    &&& first + taken <= s.next <= first + sent.len()
    &&& s.ready == sent.subrange(taken as int, s.next - first)
    &&& forall|q: u32| #[trigger]
        s.ahead.dom().contains(q) ==> from <= q < first + sent.len()
    &&& forall|q: u32| #[trigger]
        s.ahead.dom().contains(q) ==> s.ahead[q] == sent[q - first]
}

/// Whether a receiver has the messages of a sender in order. What is kept is ahead of
/// the next expected message.
pub open spec fn in_order(s: Receiving, sent: Seq<Seq<u8>>, first: u32, taken: nat) -> bool {
    tracks(s, sent, first, taken, s.next + 1)
}

/// Whether message `i` of a sender has arrived.
pub open spec fn arrived(s: Receiving, first: u32, i: nat) -> bool {
    first + i < s.next || s.ahead.dom().contains((first + i) as u32)
}

/// What the messages of a sender do that arrive in some order; the order is given by
/// their positions.
pub open spec fn accept_in(
    s: Receiving,
    message_type: u16,
    sent: Seq<Seq<u8>>,
    first: u32,
    order: Seq<nat>,
) -> Receiving
    decreases order.len(),
{
    if order.len() == 0 {
        s
    } else {
        let t = accept_in(s, message_type, sent, first, order.drop_last());
        accept(t, message_type, (first + order.last()) as u32, sent[order.last() as int])
    }
}

/// Whether each message arrives before it is too far ahead.
pub open spec fn within_window(
    s: Receiving,
    message_type: u16,
    sent: Seq<Seq<u8>>,
    first: u32,
    order: Seq<nat>,
) -> bool
    decreases order.len(),
{
    order.len() > 0 ==> {
        &&& within_window(s, message_type, sent, first, order.drop_last())
        &&& order.last() < sent.len()
        &&& first + order.last() < accept_in(
            s,
            message_type,
            sent,
            first,
            order.drop_last(),
        ).next + REORDER_WINDOW
    }
}

proof fn lemma_settled(s: Receiving, sent: Seq<Seq<u8>>, first: u32, taken: nat)
    requires
        tracks(s, sent, first, taken, s.next as int),
    ensures
        in_order(settled(s), sent, first, taken),
        settled(s).next >= s.next,
    decreases s.ahead.dom().len(),
{
    if s.ahead.dom().contains(s.next) {
        assert(s.ahead[s.next] == sent[s.next - first]);
        let t = Receiving {
            next: after(s.next),
            ahead: s.ahead.remove(s.next),
            ready: s.ready.push(s.ahead[s.next]),
            ..s
        };
        assert(t.ready =~= sent.subrange(taken as int, t.next - first));
        assert(t.ahead.dom() =~= s.ahead.dom().remove(s.next));
        lemma_settled(t, sent, first, taken);
    }
}

/// Whichever message of a sender arrives, those that are ready are in the sender's
/// order, without gaps and each once; a message that is expected or within the window
/// is not lost.
pub proof fn law_in_order_delivery(
    s: Receiving,
    sent: Seq<Seq<u8>>,
    first: u32,
    taken: nat,
    message_type: u16,
    i: nat,
)
    requires
        in_order(s, sent, first, taken),
        i < sent.len(),
        !s.handled.contains(message_type),
    ensures
        ({
            let t = accept(s, message_type, (first + i) as u32, sent[i as int]);
            &&& in_order(t, sent, first, taken)
            &&& t.next >= s.next
            &&& first + i < s.next + REORDER_WINDOW ==> arrived(t, first, i)
        }),
{
    let seq = (first + i) as u32;
    if seq == s.next {
        let t = Receiving { next: after(s.next), ready: s.ready.push(sent[i as int]), ..s };
        assert(t.ready =~= sent.subrange(taken as int, t.next - first));
        lemma_settled(t, sent, first, taken);
    } else if seq > s.next && seq - s.next < REORDER_WINDOW {
        let t = accept(s, message_type, seq, sent[i as int]);
        assert(t.ahead.dom() =~= s.ahead.dom().insert(seq));
    }
}

proof fn lemma_settled_keeps(s: Receiving)
    requires
        s.ahead.dom().finite(),
    ensures
        settled(s).handled == s.handled,
    decreases s.ahead.dom().len(),
{
    if s.ahead.dom().contains(s.next) {
        lemma_settled_keeps(
            Receiving {
                next: after(s.next),
                ahead: s.ahead.remove(s.next),
                ready: s.ready.push(s.ahead[s.next]),
                ..s
            },
        );
    }
}

/// What has arrived stays arrived when a further message of the sender comes in.
proof fn lemma_stays_arrived(
    s: Receiving,
    sent: Seq<Seq<u8>>,
    first: u32,
    taken: nat,
    message_type: u16,
    i: nat,
    j: nat,
)
    requires
        in_order(s, sent, first, taken),
        i < sent.len(),
        j < sent.len(),
        !s.handled.contains(message_type),
        arrived(s, first, j),
    ensures
        arrived(accept(s, message_type, (first + i) as u32, sent[i as int]), first, j),
{
    let seq = (first + i) as u32;
    if seq == s.next {
        let t = Receiving { next: after(s.next), ready: s.ready.push(sent[i as int]), ..s };
        assert(t.ready =~= sent.subrange(taken as int, t.next - first));
        lemma_settled_arrived(t, sent, first, taken, j);
    } else if seq > s.next {
        assert(s.ahead.insert(seq, sent[i as int]).dom() =~= s.ahead.dom().insert(seq));
    }
}

proof fn lemma_settled_arrived(s: Receiving, sent: Seq<Seq<u8>>, first: u32, taken: nat, j: nat)
    requires
        tracks(s, sent, first, taken, s.next as int),
        j < sent.len(),
        arrived(s, first, j),
    ensures
        arrived(settled(s), first, j),
    decreases s.ahead.dom().len(),
{
    if s.ahead.dom().contains(s.next) {
        let t = Receiving {
            next: after(s.next),
            ahead: s.ahead.remove(s.next),
            ready: s.ready.push(s.ahead[s.next]),
            ..s
        };
        assert(t.ready =~= sent.subrange(taken as int, t.next - first));
        assert(t.ahead.dom() =~= s.ahead.dom().remove(s.next));
        lemma_settled_arrived(t, sent, first, taken, j);
    }
}

proof fn lemma_accept_in(
    s: Receiving,
    message_type: u16,
    sent: Seq<Seq<u8>>,
    first: u32,
    taken: nat,
    order: Seq<nat>,
)
    requires
        in_order(s, sent, first, taken),
        !s.handled.contains(message_type),
        within_window(s, message_type, sent, first, order),
    ensures
        in_order(accept_in(s, message_type, sent, first, order), sent, first, taken),
        accept_in(s, message_type, sent, first, order).handled == s.handled,
        accept_in(s, message_type, sent, first, order).next >= s.next,
        forall|k: int|
            0 <= k < order.len() ==> arrived(
                accept_in(s, message_type, sent, first, order),
                first,
                #[trigger] order[k],
            ),
    decreases order.len(),
{
    if order.len() > 0 {
        let before = order.drop_last();
        let i = order.last();
        lemma_accept_in(s, message_type, sent, first, taken, before);
        let t = accept_in(s, message_type, sent, first, before);
        law_in_order_delivery(t, sent, first, taken, message_type, i);
        if (first + i) as u32 == t.next {
            lemma_settled_keeps(
                Receiving { next: after(t.next), ready: t.ready.push(sent[i as int]), ..t },
            );
        }
        assert(within_window(s, message_type, sent, first, before));
        lemma_positions(s, message_type, sent, first, before);
        assert forall|k: int| 0 <= k < order.len() implies arrived(
            accept_in(s, message_type, sent, first, order),
            first,
            #[trigger] order[k],
        ) by {
            if k < before.len() {
                assert(before[k] == order[k]);
                lemma_stays_arrived(t, sent, first, taken, message_type, i, order[k]);
            }
        }
    }
}

proof fn lemma_positions(
    s: Receiving,
    message_type: u16,
    sent: Seq<Seq<u8>>,
    first: u32,
    order: Seq<nat>,
)
    requires
        within_window(s, message_type, sent, first, order),
    ensures
        forall|k: int| 0 <= k < order.len() ==> #[trigger] order[k] < sent.len(),
    decreases order.len(),
{
    if order.len() > 0 {
        lemma_positions(s, message_type, sent, first, order.drop_last());
        assert forall|k: int| 0 <= k < order.len() implies #[trigger] order[k] < sent.len() by {
            if k < order.len() - 1 {
                assert(order.drop_last()[k] == order[k]);
            }
        }
    }
}

/// Delivery is reliable and in order: once every message of a sender has arrived, in
/// whatever order, some perhaps more than once, but none too far ahead, all of them are
/// ready in the order in which they were sent.
pub proof fn law_all_delivered(
    s: Receiving,
    message_type: u16,
    sent: Seq<Seq<u8>>,
    first: u32,
    taken: nat,
    order: Seq<nat>,
)
    requires
        in_order(s, sent, first, taken),
        !s.handled.contains(message_type),
        within_window(s, message_type, sent, first, order),
        forall|i: nat| s.next - first <= i < sent.len() ==> order.contains(i),
    ensures
        ({
            let t = accept_in(s, message_type, sent, first, order);
            &&& t.ready == sent.subrange(taken as int, sent.len() as int)
            &&& t.next == first + sent.len()
            &&& t.ahead.dom() == Set::<u32>::empty()
        }),
{
    let t = accept_in(s, message_type, sent, first, order);
    lemma_accept_in(s, message_type, sent, first, taken, order);
    if t.next < first + sent.len() {
        let i = (t.next - first) as nat;
        assert(order.contains(i));
        let k = choose|k: int| 0 <= k < order.len() && order[k] == i;
        assert(arrived(t, first, order[k]));
        assert(false);
    }
    assert(t.ahead.dom() =~= Set::<u32>::empty()) by {
        assert forall|q: u32| !t.ahead.dom().contains(q) by {
            if t.ahead.dom().contains(q) {
                assert(t.next + 1 <= q < first + sent.len());
            }
        }
    }
}

/// A new receiver has all messages of a sender that starts at 0, in order, taken none.
pub proof fn law_new_receiver_in_order(sent: Seq<Seq<u8>>, handled: Set<u16>)
    requires
        sent.len() <= u32::MAX,
    ensures
        in_order(
            Receiving {
                next: 0,
                ahead: Map::empty(),
                ready: Seq::empty(),
                handled,
                dispatched: Seq::empty(),
            },
            sent,
            0,
            0,
        ),
{
    assert(sent.subrange(0, 0) =~= Seq::<Seq<u8>>::empty());
}

// --- Channels ---

/// A reliable in-order message channel over a link.
pub struct Channel {
    pub link: Link,
    /// The sequence number of the next message that is sent.
    pub outgoing_seq: u32,
    /// The sequence number of the next message that is expected.
    pub incoming_seq: u32,
    /// Messages that are ahead, by sequence number.
    pub reorder_buffer: HashMap<u32, Vec<u8>>,
    /// Messages that can be received.
    pub ready: VecDeque<Vec<u8>>,
    /// Message types that have a handler.
    pub handlers: HashSet<u16>,
    /// Messages for handlers: type and payload.
    pub dispatched: VecDeque<(u16, Vec<u8>)>,
}

/// Messages by number, over byte sequences.
pub open spec fn numbered(m: Map<u32, Vec<u8>>) -> Map<u32, Seq<u8>> {
    Map::new(|i: u32| m.dom().contains(i), |i: u32| m[i]@)
}

/// Messages with their types, over byte sequences.
pub open spec fn typed(v: Seq<(u16, Vec<u8>)>) -> Seq<(u16, Seq<u8>)> {
    Seq::new(v.len(), |i: int| (v[i].0, v[i].1@))
}

/// What sending does to a channel: a message that is too large is refused, and nothing
/// changes; any other takes the next sequence number and goes to the link.
pub open spec fn channel_send_effect(
    before: Channel,
    after_it: Channel,
    message_type: SystemMessageType,
    payload: Seq<u8>,
    ephemeral: Seq<u8>,
    iv: Seq<u8>,
    r: Result<Packet, ChannelError>,
) -> bool {
    let mdu = before.link.config.mtu - 6;
    if payload.len() > mdu {
        r == Err::<Packet, ChannelError>(
            ChannelError::MessageTooLarge(payload.len() as usize, mdu as usize),
        ) && after_it == before
    } else {
        &&& after_it == Channel {
            link: after_it.link,
            outgoing_seq: after(before.outgoing_seq),
            ..before
        }
        &&& crate::transport::link::send_effect(
            before.link,
            after_it.link,
            message::envelope_bytes(message_type.number(), before.outgoing_seq, payload),
            ephemeral,
            iv,
            (match r {
                Ok(p) => Ok(p),
                Err(ChannelError::Transport(e)) => Err(e),
                Err(_) => Err(TransportError::LinkClosed),
            }),
        )
        &&& (r matches Err(e) ==> e is Transport)
    }
}

/// What taking in a packet returns, and what the channel becomes: the link decrypts the
/// packet, and what it brings is put in order.
pub open spec fn channel_delivered(
    before: Channel,
    p: PacketModel,
    r: Result<(), ChannelError>,
    after_it: Channel,
) -> bool {
    match before.link.delivered(p) {
        Err(f) => (r matches Err(ChannelError::Transport(e)) && e@ == f) && after_it == before,
        Ok(m) => {
            let (state, rest, fault) = accept_all(
                before.receiving(),
                wire::all_bytes(before.link.inbound@).push(m),
            );
            &&& after_it.receiving() == state
            &&& after_it.outgoing_seq == before.outgoing_seq
            &&& after_it.link == Link { inbound: after_it.link.inbound, ..before.link }
            &&& wire::all_bytes(after_it.link.inbound@) == rest
            &&& (match fault {
                Some(f) => r matches Err(ChannelError::Transport(e)) && e@ == f,
                None => r == Ok::<(), ChannelError>(()),
            })
        },
    }
}

/// What taking a message out returns, and what the channel becomes: the first message
/// that is ready is no longer there.
pub open spec fn taken_out(before: Channel, m: Option<Vec<u8>>, after_it: Channel) -> bool {
    let ready = before.receiving().ready;
    match m {
        Some(b) => {
            &&& ready.len() > 0
            &&& b@ == ready[0]
            &&& after_it.receiving() == Receiving {
                ready: ready.subrange(1, ready.len() as int),
                ..before.receiving()
            }
            &&& after_it.link == before.link
            &&& after_it.outgoing_seq == before.outgoing_seq
        },
        None => ready.len() == 0 && after_it == before,
    }
}

impl Channel {
    /// The state of the receiving side.
    pub open spec fn receiving(&self) -> Receiving {
        Receiving {
            next: self.incoming_seq,
            ahead: numbered(self.reorder_buffer@),
            ready: wire::all_bytes(self.ready@),
            handled: self.handlers@,
            dispatched: typed(self.dispatched@),
        }
    }

    /// A channel over a link.
    pub fn new(link: Link) -> (c: Self)
        ensures
            c.link == link,
            c.outgoing_seq == 0,
            c.receiving() == (Receiving {
                next: 0,
                ahead: Map::empty(),
                ready: Seq::empty(),
                handled: Set::empty(),
                dispatched: Seq::empty(),
            }),
    {
        let c = Channel {
            link,
            outgoing_seq: 0,
            incoming_seq: 0,
            reorder_buffer: HashMap::new(),
            ready: VecDeque::new(),
            handlers: HashSet::new(),
            dispatched: VecDeque::new(),
        };
        assert(c.receiving().ahead =~= Map::empty());
        assert(c.receiving().ready =~= Seq::empty());
        assert(c.receiving().dispatched =~= Seq::empty());
        c
    }

    /// The largest payload: the link's MTU without the 6 bytes of the envelope.
    pub fn mdu(&self) -> (n: usize)
        requires
            self.link.config.mtu >= 6,
        ensures
            n == self.link.config.mtu - 6,
    {
        self.link.config().mtu as usize - 6
    }

    /// Whether the link is established.
    pub fn is_ready(&self) -> (r: bool)
        ensures
            r <==> self.link.state == crate::transport::LinkState::Established,
    {
        self.link.is_established()
    }

    /// The link.
    pub fn link(&self) -> (l: &Link)
        ensures
            *l == self.link,
    {
        &self.link
    }

    /// The link, to be changed.
    pub fn link_mut(&mut self) -> (l: &mut Link)
        ensures
            *l == old(self).link,
            *final(self) == (Channel { link: *final(l), ..*old(self) }),
    {
        &mut self.link
    }

    /// Sends a payload as plain channel data.
    pub fn send(&mut self, payload: Vec<u8>) -> (r: Result<Packet, ChannelError>)
        requires
            old(self).link.config.mtu >= 6,
        ensures
            exists|ephemeral: Seq<u8>, iv: Seq<u8>|
                ephemeral.len() == 32 && iv.len() == 16 && #[trigger] channel_send_effect(
                    *old(self),
                    *final(self),
                    SystemMessageType::SMT_CHANNEL_DATA,
                    payload@,
                    ephemeral,
                    iv,
                    r,
                ),
    {
        self.send_typed(SystemMessageType::SMT_CHANNEL_DATA, payload)
    }

    /// Sends a payload with a message type, with fresh randomness where the link
    /// encrypts.
    pub fn send_typed(&mut self, msg_type: SystemMessageType, payload: Vec<u8>) -> (r: Result<
        Packet,
        ChannelError,
    >)
        requires
            old(self).link.config.mtu >= 6,
        ensures
            exists|ephemeral: Seq<u8>, iv: Seq<u8>|
                ephemeral.len() == 32 && iv.len() == 16 && #[trigger] channel_send_effect(
                    *old(self),
                    *final(self),
                    msg_type,
                    payload@,
                    ephemeral,
                    iv,
                    r,
                ),
    {
        let ephemeral: [u8; 32] = crate::crypto::primitives::random_32();
        let iv: [u8; 16] = crate::crypto::primitives::os_random_16();
        let r: Result<Packet, ChannelError> = self.send_typed_with(
            msg_type,
            payload,
            &ephemeral,
            &iv,
        );
        assert(channel_send_effect(*old(self), *self, msg_type, payload@, ephemeral@, iv@, r));
        r
    }

    /// Sends a payload with a message type, with the given ephemeral secret and IV where
    /// the link encrypts.
    pub fn send_typed_with(
        &mut self,
        msg_type: SystemMessageType,
        payload: Vec<u8>,
        ephemeral: &[u8; 32],
        iv: &[u8; 16],
    ) -> (r: Result<Packet, ChannelError>)
        requires
            old(self).link.config.mtu >= 6,
        ensures
            channel_send_effect(
                *old(self),
                *final(self),
                msg_type,
                payload@,
                ephemeral@,
                iv@,
                r,
            ),
    {
        let mdu: usize = self.mdu();
        if payload.len() > mdu {
            return Err(ChannelError::MessageTooLarge(payload.len(), mdu));
        }
        let seq: u32 = self.outgoing_seq;
        self.outgoing_seq = self.outgoing_seq.wrapping_add(1);
        let envelope: ChannelEnvelope = ChannelEnvelope {
            message_type: msg_type.code(),
            sequence_number: seq,
            payload,
        };
        match self.link.send_with(envelope.pack(), ephemeral, iv) {
            Ok(p) => Ok(p),
            Err(e) => Err(ChannelError::Transport(e)),
        }
    }

    /// Takes in one message from the link.
    fn take_in(&mut self, envelope: ChannelEnvelope)
        ensures
            final(self).receiving() == accept(
                old(self).receiving(),
                envelope.message_type,
                envelope.sequence_number,
                envelope.payload@,
            ),
            final(self).link == old(self).link,
            final(self).outgoing_seq == old(self).outgoing_seq,
    {
        let ghost start = self.receiving();
        if self.handlers.contains(&envelope.message_type) {
            self.dispatched.push_back((envelope.message_type, envelope.payload));
            assert(self.receiving().dispatched =~= start.dispatched.push(
                (envelope.message_type, envelope.payload@),
            ));
            return;
        }
        let seq: u32 = envelope.sequence_number;
        if seq == self.incoming_seq {
            self.ready.push_back(envelope.payload);
            self.incoming_seq = self.incoming_seq.wrapping_add(1);
            assert(self.receiving().ready =~= start.ready.push(envelope.payload@));
            let ghost goal = settled(self.receiving());
            assert(self.receiving().ahead.dom() =~= self.reorder_buffer@.dom());
            loop
                invariant
                    settled(self.receiving()) == goal,
                    self.receiving().ahead.dom() == self.reorder_buffer@.dom(),
                    self.link == old(self).link,
                    self.outgoing_seq == old(self).outgoing_seq,
                ensures
                    self.receiving() == goal,
                decreases self.reorder_buffer@.dom().len(),
            {
                let ghost before = self.receiving();
                let ghost kept = self.reorder_buffer@;
                let next: u32 = self.incoming_seq;
                match self.reorder_buffer.remove(&next) {
                    Some(payload) => {
                        self.ready.push_back(payload);
                        self.incoming_seq = self.incoming_seq.wrapping_add(1);
                        proof {
                            assert(self.receiving().ready =~= before.ready.push(before.ahead[next]));
                            assert(self.receiving().ahead =~= before.ahead.remove(next));
                            assert(self.receiving().ahead.dom() =~= self.reorder_buffer@.dom());
                            assert(self.receiving() =~= Receiving {
                                next: after(next),
                                ahead: before.ahead.remove(next),
                                ready: before.ready.push(before.ahead[next]),
                                ..before
                            });
                        }
                    },
                    None => {
                        assert(self.receiving() =~= before);
                        break;
                    },
                }
            }
        } else if seq > self.incoming_seq && seq - self.incoming_seq < REORDER_WINDOW {
            self.reorder_buffer.insert(seq, envelope.payload);
            assert(self.receiving().ahead =~= start.ahead.insert(seq, envelope.payload@));
        }
    }

    /// Takes in a packet: the link decrypts it, and what it brings is put in order. A
    /// message that is no envelope is an error, and those behind it wait.
    pub fn deliver(&mut self, packet: &Packet) -> (r: Result<(), ChannelError>)
        ensures
            channel_delivered(*old(self), packet@, r, *final(self)),
    {
        match self.link.deliver(packet) {
            Ok(_) => {},
            Err(e) => {
                return Err(ChannelError::Transport(e));
            },
        }
        let ghost messages = wire::all_bytes(self.link.inbound@);
        let ghost start = old(self).receiving();
        loop
            invariant
                accept_all(self.receiving(), wire::all_bytes(self.link.inbound@)) == accept_all(
                    start,
                    messages,
                ),
                self.outgoing_seq == old(self).outgoing_seq,
                self.link == (Link { inbound: self.link.inbound, ..old(self).link }),
                old(self).link.delivered(packet@) is Ok,
                start == old(self).receiving(),
                messages == wire::all_bytes(old(self).link.inbound@).push(
                    old(self).link.delivered(packet@)->Ok_0,
                ),
            decreases self.link.inbound@.len(),
        {
            let ghost waiting = self.link.inbound@;
            match self.link.recv() {
                Some(data) => {
                    proof {
                        assert(wire::all_bytes(waiting).subrange(1, waiting.len() as int)
                            =~= wire::all_bytes(self.link.inbound@));
                        assert(wire::all_bytes(waiting)[0] == data@);
                    }
                    match ChannelEnvelope::unpack(data.as_slice()) {
                        Ok(envelope) => {
                            self.take_in(envelope);
                        },
                        Err(e) => {
                            return Err(
                                ChannelError::Transport(
                                    TransportError::Other(
                                        text::join("envelope: ", e.to_string().as_str()),
                                    ),
                                ),
                            );
                        },
                    }
                },
                None => {
                    return Ok(());
                },
            }
        }
    }

    /// The next message in order, if there is one.
    pub fn recv(&mut self) -> (m: Option<Vec<u8>>)
        ensures
            taken_out(*old(self), m, *final(self)),
    {
        if self.ready.len() == 0 {
            return None;
        }
        let m: Option<Vec<u8>> = self.ready.pop_front();
        proof {
            if m is Some {
                assert(self.receiving().ready =~= old(self).receiving().ready.subrange(
                    1,
                    old(self).ready@.len() as int,
                ));
                assert(self.receiving() =~= Receiving {
                    ready: self.receiving().ready,
                    ..old(self).receiving()
                });
            }
        }
        m
    }

    /// How many messages are ready.
    pub fn pending(&self) -> (n: usize)
        ensures
            n == self.receiving().ready.len(),
    {
        self.ready.len()
    }

    /// Registers a message type that has a handler: its messages are dispatched instead
    /// of being put in order.
    pub fn register_handler(&mut self, msg_type: SystemMessageType)
        ensures
            final(self).receiving() == (Receiving {
                handled: old(self).receiving().handled.insert(msg_type.number()),
                ..old(self).receiving()
            }),
            final(self).link == old(self).link,
            final(self).outgoing_seq == old(self).outgoing_seq,
    {
        self.handlers.insert(msg_type.code());
    }

    /// The oldest message for a handler, if there is one: its type and payload.
    pub fn next_dispatch(&mut self) -> (m: Option<(u16, Vec<u8>)>)
        ensures
            (match m {
                Some(d) => old(self).dispatched@.len() > 0 && d == old(self).dispatched@[0] && final(
                    self).receiving() == (Receiving {
                    dispatched: old(self).receiving().dispatched.subrange(
                        1,
                        old(self).dispatched@.len() as int,
                    ),
                    ..old(self).receiving()
                }) && final(self).link == old(self).link && final(self).outgoing_seq == old(
                    self).outgoing_seq,
                None => old(self).dispatched@.len() == 0 && *final(self) == *old(self),
            }),
    {
        if self.dispatched.len() == 0 {
            return None;
        }
        let m: Option<(u16, Vec<u8>)> = self.dispatched.pop_front();
        proof {
            if m is Some {
                assert(self.receiving().dispatched =~= old(self).receiving().dispatched.subrange(
                    1,
                    old(self).dispatched@.len() as int,
                ));
                assert(self.receiving() =~= Receiving {
                    dispatched: self.receiving().dispatched,
                    ..old(self).receiving()
                });
            }
        }
        m
    }
}

/// The other end of a channel takes in what was sent, with its type and its number in
/// the sender's order.
pub proof fn law_channel_delivers(
    sender: Channel,
    after: Channel,
    receiver: Channel,
    msg_type: SystemMessageType,
    payload: Seq<u8>,
    ephemeral: Seq<u8>,
    iv: Seq<u8>,
    p: Packet,
)
    requires
        link::ends_of_one_link(sender.link, receiver.link),
        receiver.link.inbound@.len() == 0,
        channel_send_effect(sender, after, msg_type, payload, ephemeral, iv, Ok(p)),
    ensures
        receiver.link.delivered(p@) == Ok::<Seq<u8>, TransportFault>(
            message::envelope_bytes(msg_type.number(), sender.outgoing_seq, payload),
        ),
        accept_all(
            receiver.receiving(),
            wire::all_bytes(receiver.link.inbound@).push(
                message::envelope_bytes(msg_type.number(), sender.outgoing_seq, payload),
            ),
        ) == (
            accept(
                receiver.receiving(),
                msg_type.number(),
                sender.outgoing_seq,
                payload,
            ),
            Seq::<Seq<u8>>::empty(),
            None::<TransportFault>,
        ),
{
    let b = message::envelope_bytes(msg_type.number(), sender.outgoing_seq, payload);
    link::law_link_delivers(sender.link, after.link, receiver.link, b, ephemeral, iv, p);
    message::law_envelope_roundtrip(msg_type.number(), sender.outgoing_seq, payload);
    let all = wire::all_bytes(receiver.link.inbound@).push(b);
    assert(all =~= seq![b]);
    assert(all.subrange(1, all.len() as int) =~= Seq::empty());
    reveal_with_fuel(accept_all, 2);
}

/// Whether a channel over the far end of a link has got the messages of a list of
/// deliveries, and no others.
spec fn got(c: Channel, near: Link, sent: Seq<Seq<u8>>, delivered: Seq<nat>) -> bool {
    let s = c.receiving();
    &&& link::ends_of_one_link(near, c.link)
    &&& c.link.inbound@.len() == 0
    &&& s.handled == Set::<u16>::empty()
    &&& in_order(s, sent, 0, 0)
    &&& forall|i: nat| i < sent.len() ==> (#[trigger] arrived(s, 0, i) <==> delivered.contains(i))
}

/// What is put in order had arrived before.
proof fn lemma_settled_had(s: Receiving, sent: Seq<Seq<u8>>, j: nat)
    requires
        tracks(s, sent, 0, 0, s.next as int),
        j < sent.len(),
        arrived(settled(s), 0, j),
    ensures
        arrived(s, 0, j),
    decreases s.ahead.dom().len(),
{
    if s.ahead.dom().contains(s.next) {
        let t = Receiving {
            next: after(s.next),
            ahead: s.ahead.remove(s.next),
            ready: s.ready.push(s.ahead[s.next]),
            ..s
        };
        assert(s.ahead[s.next] == sent[s.next as int]);
        assert(t.ready =~= sent.subrange(0, t.next as int));
        assert(t.ahead.dom() =~= s.ahead.dom().remove(s.next));
        lemma_settled_had(t, sent, j);
    }
}

proof fn lemma_gets(
    before: Channel,
    after_it: Channel,
    near: Link,
    sent: Seq<Seq<u8>>,
    delivered: Seq<nat>,
    i: nat,
    sender: Channel,
    next_sender: Channel,
    ephemeral: Seq<u8>,
    iv: Seq<u8>,
    p: Packet,
    r: Result<(), ChannelError>,
)
    requires
        sent.len() <= REORDER_WINDOW,
        i < sent.len(),
        got(before, near, sent, delivered),
        sender.link == (Link { outbound: sender.link.outbound, ..near }),
        sender.outgoing_seq == i,
        channel_send_effect(
            sender,
            next_sender,
            SystemMessageType::SMT_CHANNEL_DATA,
            sent[i as int],
            ephemeral,
            iv,
            Ok(p),
        ),
        channel_delivered(before, p@, r, after_it),
    ensures
        r == Ok::<(), ChannelError>(()),
        got(after_it, near, sent, delivered.push(i)),
{
    let t = SystemMessageType::SMT_CHANNEL_DATA;
    let s = before.receiving();
    let x = sent[i as int];
    law_channel_delivers(sender, next_sender, before, t, x, ephemeral, iv, p);
    law_in_order_delivery(s, sent, 0, 0, t.number(), i);
    let u = after_it.receiving();
    assert(u == accept(s, t.number(), i as u32, x));
    assert(wire::all_bytes(after_it.link.inbound@).len() == 0);
    let step = Receiving { next: after(s.next), ready: s.ready.push(x), ..s };
    if i == s.next {
        lemma_settled_keeps(step);
        assert(step.ready =~= sent.subrange(0, step.next as int));
    }
    let now = delivered.push(i);
    assert(now[delivered.len() as int] == i);
    assert forall|j: nat| j < sent.len() implies (#[trigger] arrived(u, 0, j) <==> now.contains(j)) by {
        assert(arrived(s, 0, j) <==> delivered.contains(j));
        if arrived(s, 0, j) {
            lemma_stays_arrived(s, sent, 0, 0, t.number(), i, j);
            let k = delivered.index_of(j);
            assert(now[k] == j);
        }
        if arrived(u, 0, j) && j != i {
            if i == s.next {
                lemma_settled_had(step, sent, j);
            }
            assert(arrived(s, 0, j));
        }
        if now.contains(j) && j != i {
            let k = now.index_of(j);
            assert(delivered[k] == j);
        }
    }
}

/// Up to 1000 messages are sent on a channel, and their packets delivered to the other
/// end in whatever order, each perhaps more than once: every delivery succeeds; after each
/// one the messages up to the first that has not been delivered are pending, in the order
/// in which they were sent; once all have been delivered, all of them are pending.
///
/// `senders`, `ephemerals`, `ivs` and `packets` are what the calls of [`Channel::send`]
/// make and use, `channels` and `results` what those of [`Channel::deliver`] make and
/// return. Where the link does not encrypt, both ends may be one channel.
pub proof fn law_deliveries_in_any_order(
    senders: Seq<Channel>,
    sent: Seq<Seq<u8>>,
    ephemerals: Seq<Seq<u8>>,
    ivs: Seq<Seq<u8>>,
    packets: Seq<Packet>,
    order: Seq<nat>,
    channels: Seq<Channel>,
    results: Seq<Result<(), ChannelError>>,
)
    requires
        sent.len() <= REORDER_WINDOW,
        senders.len() == sent.len() + 1,
        ephemerals.len() == sent.len(),
        ivs.len() == sent.len(),
        packets.len() == sent.len(),
        senders[0].outgoing_seq == 0,
        forall|i: int|
            0 <= i < sent.len() ==> channel_send_effect(
                senders[i],
                senders[i + 1],
                SystemMessageType::SMT_CHANNEL_DATA,
                sent[i],
                ephemerals[i],
                ivs[i],
                Ok(#[trigger] packets[i]),
            ),
        channels.len() == order.len() + 1,
        results.len() == order.len(),
        link::ends_of_one_link(senders[0].link, channels[0].link),
        channels[0].link.inbound@.len() == 0,
        channels[0].receiving() == (Receiving {
            next: 0,
            ahead: Map::empty(),
            ready: Seq::empty(),
            handled: Set::empty(),
            dispatched: Seq::empty(),
        }),
        forall|j: int| 0 <= j < order.len() ==> #[trigger] order[j] < sent.len(),
        forall|j: int|
            0 <= j < order.len() ==> channel_delivered(
                channels[j],
                packets[order[j] as int]@,
                #[trigger] results[j],
                channels[j + 1],
            ),
    ensures
        forall|j: int| 0 <= j < order.len() ==> #[trigger] results[j] == Ok::<(), ChannelError>(()),
        forall|j: int| 0 <= j <= order.len() ==> pending_after(
            #[trigger] channels[j],
            sent,
            order.subrange(0, j),
        ),
        (forall|i: nat| i < sent.len() ==> #[trigger] order.contains(i))
            ==> channels.last().receiving().ready == sent,
{
    let near = senders[0].link;
    law_new_receiver_in_order(sent, Set::empty());
    assert forall|i: nat| i < sent.len() implies (#[trigger] arrived(channels[0].receiving(), 0, i)
        <==> order.subrange(0, 0).contains(i)) by {}
    assert(got(channels[0], near, sent, order.subrange(0, 0)));
    assert forall|j: int| 0 <= j <= order.len() implies pending_after(
        #[trigger] channels[j],
        sent,
        order.subrange(0, j),
    ) by {
        lemma_all_got(senders, sent, ephemerals, ivs, packets, order, channels, results, j);
        lemma_pending(channels[j], near, sent, order.subrange(0, j));
    }
    lemma_all_got(
        senders,
        sent,
        ephemerals,
        ivs,
        packets,
        order,
        channels,
        results,
        order.len() as int,
    );
    let last = channels[order.len() as int];
    if forall|i: nat| i < sent.len() ==> #[trigger] order.contains(i) {
        assert(order.subrange(0, order.len() as int) =~= order);
        let k = last.receiving().ready.len();
        assert(pending_after(last, sent, order));
        assert(!(k < sent.len()));
        assert(sent.subrange(0, k as int) =~= sent);
    }
}

/// Whether the messages that are pending are those of a sender up to the first that has
/// not been delivered.
pub open spec fn pending_after(c: Channel, sent: Seq<Seq<u8>>, delivered: Seq<nat>) -> bool {
    let k = c.receiving().ready.len();
    &&& k <= sent.len()
    &&& c.receiving().ready == sent.subrange(0, k as int)
    &&& forall|i: nat| i < k ==> #[trigger] delivered.contains(i)
    &&& k < sent.len() ==> !delivered.contains(k)
}

proof fn lemma_pending(c: Channel, near: Link, sent: Seq<Seq<u8>>, delivered: Seq<nat>)
    requires
        got(c, near, sent, delivered),
    ensures
        pending_after(c, sent, delivered),
{
    let s = c.receiving();
    let k = s.ready.len();
    assert(k == s.next);
    assert forall|i: nat| i < k implies #[trigger] delivered.contains(i) by {
        assert(arrived(s, 0, i));
    }
    if k < sent.len() {
        assert(!arrived(s, 0, k));
    }
}

proof fn lemma_senders(
    senders: Seq<Channel>,
    sent: Seq<Seq<u8>>,
    ephemerals: Seq<Seq<u8>>,
    ivs: Seq<Seq<u8>>,
    packets: Seq<Packet>,
    i: int,
)
    requires
        sent.len() <= REORDER_WINDOW,
        senders.len() == sent.len() + 1,
        packets.len() == sent.len(),
        senders[0].outgoing_seq == 0,
        forall|i: int|
            0 <= i < sent.len() ==> channel_send_effect(
                senders[i],
                senders[i + 1],
                SystemMessageType::SMT_CHANNEL_DATA,
                sent[i],
                ephemerals[i],
                ivs[i],
                Ok(#[trigger] packets[i]),
            ),
        0 <= i <= sent.len(),
    ensures
        senders[i].outgoing_seq == i,
        senders[i].link == (Link { outbound: senders[i].link.outbound, ..senders[0].link }),
    decreases i,
{
    if i > 0 {
        lemma_senders(senders, sent, ephemerals, ivs, packets, i - 1);
        assert(channel_send_effect(
            senders[i - 1],
            senders[i],
            SystemMessageType::SMT_CHANNEL_DATA,
            sent[i - 1],
            ephemerals[i - 1],
            ivs[i - 1],
            Ok(packets[i - 1]),
        ));
    }
}

proof fn lemma_all_got(
    senders: Seq<Channel>,
    sent: Seq<Seq<u8>>,
    ephemerals: Seq<Seq<u8>>,
    ivs: Seq<Seq<u8>>,
    packets: Seq<Packet>,
    order: Seq<nat>,
    channels: Seq<Channel>,
    results: Seq<Result<(), ChannelError>>,
    j: int,
)
    requires
        sent.len() <= REORDER_WINDOW,
        senders.len() == sent.len() + 1,
        packets.len() == sent.len(),
        senders[0].outgoing_seq == 0,
        forall|i: int|
            0 <= i < sent.len() ==> channel_send_effect(
                senders[i],
                senders[i + 1],
                SystemMessageType::SMT_CHANNEL_DATA,
                sent[i],
                ephemerals[i],
                ivs[i],
                Ok(#[trigger] packets[i]),
            ),
        channels.len() == order.len() + 1,
        results.len() == order.len(),
        got(channels[0], senders[0].link, sent, order.subrange(0, 0)),
        forall|j: int| 0 <= j < order.len() ==> #[trigger] order[j] < sent.len(),
        forall|j: int|
            0 <= j < order.len() ==> channel_delivered(
                channels[j],
                packets[order[j] as int]@,
                #[trigger] results[j],
                channels[j + 1],
            ),
        0 <= j <= order.len(),
    ensures
        got(channels[j], senders[0].link, sent, order.subrange(0, j)),
        forall|k: int| 0 <= k < j ==> #[trigger] results[k] == Ok::<(), ChannelError>(()),
    decreases j,
{
    if j > 0 {
        lemma_all_got(senders, sent, ephemerals, ivs, packets, order, channels, results, j - 1);
        let i = order[j - 1];
        lemma_senders(senders, sent, ephemerals, ivs, packets, i as int);
        assert(channel_send_effect(
            senders[i as int],
            senders[i as int + 1],
            SystemMessageType::SMT_CHANNEL_DATA,
            sent[i as int],
            ephemerals[i as int],
            ivs[i as int],
            Ok(packets[i as int]),
        ));
        assert(channel_delivered(
            channels[j - 1],
            packets[i as int]@,
            results[j - 1],
            channels[j],
        ));
        lemma_gets(
            channels[j - 1],
            channels[j],
            senders[0].link,
            sent,
            order.subrange(0, j - 1),
            i,
            senders[i as int],
            senders[i as int + 1],
            ephemerals[i as int],
            ivs[i as int],
            packets[i as int],
            results[j - 1],
        );
        assert(order.subrange(0, j - 1).push(i) =~= order.subrange(0, j));
    }
}

/// Messages that are pending are taken out one by one, in order and each once; then there
/// are none. `channels` and `results` are what the calls of [`Channel::recv`] make and
/// return.
pub proof fn law_pending_are_received(
    pending: Seq<Seq<u8>>,
    channels: Seq<Channel>,
    results: Seq<Option<Vec<u8>>>,
)
    requires
        channels.len() == pending.len() + 2,
        results.len() == pending.len() + 1,
        channels[0].receiving().ready == pending,
        forall|i: int|
            0 <= i < results.len() ==> taken_out(channels[i], #[trigger] results[i], channels[i + 1]),
    ensures
        forall|i: int|
            0 <= i < pending.len() ==> (#[trigger] results[i] matches Some(m) && m@ == pending[i]),
        results.last() is None,
{
    assert forall|i: int| 0 <= i < pending.len() implies (#[trigger] results[i] matches Some(m)
        && m@ == pending[i]) by {
        lemma_left(pending, channels, results, i);
        assert(taken_out(channels[i], results[i], channels[i + 1]));
    }
    let n = pending.len() as int;
    lemma_left(pending, channels, results, n);
    assert(taken_out(channels[n], results[n], channels[n + 1]));
}

proof fn lemma_left(
    pending: Seq<Seq<u8>>,
    channels: Seq<Channel>,
    results: Seq<Option<Vec<u8>>>,
    k: int,
)
    requires
        channels.len() == pending.len() + 2,
        results.len() == pending.len() + 1,
        channels[0].receiving().ready == pending,
        forall|i: int|
            0 <= i < results.len() ==> taken_out(channels[i], #[trigger] results[i], channels[i + 1]),
        0 <= k <= pending.len(),
    ensures
        channels[k].receiving().ready == pending.subrange(k, pending.len() as int),
    decreases k,
{
    if k == 0 {
        assert(pending.subrange(0, pending.len() as int) =~= pending);
    } else {
        lemma_left(pending, channels, results, k - 1);
        assert(taken_out(channels[k - 1], results[k - 1], channels[k]));
        let rest = pending.subrange(k - 1, pending.len() as int);
        assert(rest.subrange(1, rest.len() as int) =~= pending.subrange(k, pending.len() as int));
    }
}

/// A message whose number is ahead of the next one is kept where it is less than a thousand
/// ahead; one that is further ahead, and one that is behind, is dropped. Neither is ready,
/// and the next number stays.
pub proof fn law_reorder_window(s: Receiving, message_type: u16, seq: u32, payload: Seq<u8>)
    requires
        !s.handled.contains(message_type),
        seq != s.next,
    ensures
        ({
            let t = accept(s, message_type, seq, payload);
            &&& t.next == s.next
            &&& t.ready == s.ready
            &&& (s.next < seq < s.next + 1000 ==> t.ahead.dom().contains(seq) && t.ahead[seq]
                == payload)
            &&& (seq < s.next || seq >= s.next + 1000 ==> t == s)
            &&& forall|q: u32|
                q != seq && #[trigger] s.ahead.dom().contains(q) ==> t.ahead.dom().contains(q)
                    && t.ahead[q] == s.ahead[q]
        }),
{
}

/// The next message is ready at once, behind those that are ready, and the number after
/// it is waited for, where that has not come yet.
pub proof fn law_next_is_ready(s: Receiving, message_type: u16, payload: Seq<u8>)
    requires
        !s.handled.contains(message_type),
        s.ahead.dom().finite(),
        s.next < u32::MAX,
        !s.ahead.dom().contains((s.next + 1) as u32),
    ensures
        ({
            let t = accept(s, message_type, s.next, payload);
            &&& t.ready == s.ready.push(payload)
            &&& t.next == s.next + 1
            &&& t.ahead == s.ahead
            &&& t.dispatched == s.dispatched
        }),
{
}

/// A message of a type that has a handler goes to the handler, whatever its number, and
/// changes nothing else.
pub proof fn law_handled_is_dispatched(s: Receiving, message_type: u16, seq: u32, payload: Seq<u8>)
    requires
        s.handled.contains(message_type),
    ensures
        ({
            let t = accept(s, message_type, seq, payload);
            &&& t.dispatched == s.dispatched.push((message_type, payload))
            &&& t.ready == s.ready
            &&& t.next == s.next
            &&& t.ahead == s.ahead
        }),
{
}

/// Messages are numbered one by one, from 0 again after the largest number.
pub proof fn law_numbers_follow(n: u32)
    ensures
        n < u32::MAX ==> after(n) == n + 1,
        after(u32::MAX) == 0,
{
}

/// What is sent on one end of a channel is received at the other: the message is
/// delivered, and where the ends are in step and nothing else waits, it is what is received
/// next. Both then count one message more.
pub proof fn law_sent_is_received(
    sender: &mut Channel,
    payload: Vec<u8>,
    p: Packet,
    receiver: &mut Channel,
    r: Result<(), ChannelError>,
    reader: &mut Channel,
    m: Option<Vec<u8>>,
)
    requires
        link::ends_of_one_link(old(sender).link, old(receiver).link),
        call_ensures(Channel::send, (sender, payload), Ok(p)),
        call_ensures(Channel::deliver, (receiver, &p), r),
        old(receiver).link.inbound@.len() == 0,
        old(receiver).receiving().next == old(sender).outgoing_seq,
        old(receiver).receiving().ahead == Map::<u32, Seq<u8>>::empty(),
        old(receiver).receiving().ready.len() == 0,
        !old(receiver).receiving().handled.contains(0),
        *old(reader) == *final(receiver),
        call_ensures(Channel::recv, (reader,), m),
    ensures
        r == Ok::<(), ChannelError>(()),
        m matches Some(b) && b@ == payload@,
        final(reader).receiving().ready.len() == 0,
        final(reader).receiving().next == final(sender).outgoing_seq,
{
    let (ephemeral, iv) = choose|ephemeral: Seq<u8>, iv: Seq<u8>|
        ephemeral.len() == 32 && iv.len() == 16 && #[trigger] channel_send_effect(
            *sender,
            *final(sender),
            SystemMessageType::SMT_CHANNEL_DATA,
            payload@,
            ephemeral,
            iv,
            Ok(p),
        );
    law_channel_delivers(
        *sender,
        *final(sender),
        *receiver,
        SystemMessageType::SMT_CHANNEL_DATA,
        payload@,
        ephemeral,
        iv,
        p,
    );
    let s = receiver.receiving();
    assert(s.ready =~= Seq::empty());
    assert(s.ahead.dom() =~= Set::<u32>::empty());
}

/// A message that does not fit into a packet with its six bytes of envelope is refused, and
/// nothing changes.
pub proof fn law_large_message_is_refused(
    c: &mut Channel,
    payload: Vec<u8>,
    r: Result<Packet, ChannelError>,
)
    requires
        old(c).link.config.mtu >= 6,
        call_ensures(Channel::send, (c, payload), r),
    ensures
        payload@.len() + 6 > old(c).link.config.mtu ==> (r matches Err(
            ChannelError::MessageTooLarge(n, m),
        ) && n == payload@.len() && m + 6 == old(c).link.config.mtu) && *final(c) == *old(c),
        r is Ok ==> final(c).outgoing_seq == after(old(c).outgoing_seq) && final(c).receiving()
            == old(c).receiving(),
        old(c).link.state != crate::transport::LinkState::Established ==> r is Err,
{
    assert(payload.len() == payload@.len());
}

} // verus!
