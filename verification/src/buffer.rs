//! Byte streams over channels.

use crate::channel;
use crate::channel::message;
use crate::channel::{Channel, ChannelError, SystemMessageType};
use crate::crypto::primitives;
use crate::packet::{Packet, PacketModel};
use crate::pieces;
use crate::text;
use crate::transport::link;
use crate::transport::{Link, LinkState, TransportError};
use crate::wire;
use std::collections::VecDeque;
use vstd::prelude::*;

verus! {

/// Largest stream id (14 bits).
pub const STREAM_ID_MAX: u16 = 0x3FFF;

/// Largest chunk that compression is attempted on.
pub const MAX_CHUNK_LEN: usize = 16384;

/// A piece of a stream.
///
/// ```text
/// [2 bytes BE header] [data...]      header: [EOF:1] [compressed:1] [stream id:14]
/// ```
#[derive(Debug, Clone, PartialEq, Eq)]
pub struct StreamDataMessage {
    pub stream_id: u16,
    pub data: Vec<u8>,
    pub eof: bool,
    pub compressed: bool,
}

#[derive(Debug, PartialEq, Eq, Clone)]
pub enum BufferError {
    InvalidFormat(String),
    Channel(ChannelError),
    Transport(TransportError),
    StreamClosed,
}

impl BufferError {
    /// The text of the error.
    pub open spec fn message(&self) -> Seq<char> {
        match *self {
            BufferError::InvalidFormat(m) => "invalid format: "@ + m@,
            BufferError::Channel(e) => "channel error: "@ + e.message(),
            BufferError::Transport(e) => "transport error: "@
                + crate::transport::error::transport_message(e@),
            BufferError::StreamClosed => "stream closed"@,
        }
    }

    /// The message that describes the error.
    pub fn to_string(&self) -> (out: String)
        ensures
            out@ == self.message(),
    {
        match self {
            BufferError::InvalidFormat(m) => text::join("invalid format: ", m.as_str()),
            BufferError::Channel(e) => text::join("channel error: ", e.to_string().as_str()),
            BufferError::Transport(e) => text::join("transport error: ", e.to_string().as_str()),
            BufferError::StreamClosed => "stream closed".to_owned(),
        }
    }
}

/// The header of a piece, with the stream id cut to 14 bits.
pub open spec fn stream_header(stream_id: u16, eof: bool, compressed: bool) -> nat {
    (stream_id % 0x4000) as nat + (if eof {
        0x8000nat
    } else {
        0
    }) + (if compressed {
        0x4000nat
    } else {
        0
    })
}

/// The bytes of a piece.
pub open spec fn stream_bytes(stream_id: u16, data: Seq<u8>, eof: bool, compressed: bool) -> Seq<u8> {
    wire::be(stream_header(stream_id, eof, compressed), 2) + data
}

/// The piece that a byte string holds: stream id, data, whether it is the last one, and
/// whether it is compressed.
pub open spec fn parsed_stream(b: Seq<u8>) -> Option<(u16, Seq<u8>, bool, bool)> {
    if b.len() < 2 {
        None
    } else {
        let h = wire::be_value(b.subrange(0, 2));
        Some(
            (
                (h % 0x4000) as u16,
                b.subrange(2, b.len() as int),
                h >= 0x8000,
                (h / 0x4000) % 2 == 1,
            ),
        )
    }
}

/// A piece is read back from its bytes, with the stream id cut to 14 bits.
pub proof fn law_stream_roundtrip(stream_id: u16, data: Seq<u8>, eof: bool, compressed: bool)
    ensures
        parsed_stream(stream_bytes(stream_id, data, eof, compressed)) == Some(
            ((stream_id % 0x4000) as u16, data, eof, compressed),
        ),
        stream_bytes(stream_id, data, eof, compressed).len() == 2 + data.len(),
{
    let b = stream_bytes(stream_id, data, eof, compressed);
    let h = stream_header(stream_id, eof, compressed);
    wire::lemma_pow256_values();
    wire::lemma_be_roundtrip(h, 2);
    assert(b.subrange(0, 2) =~= wire::be(h, 2));
    assert(b.subrange(2, b.len() as int) =~= data);
}

impl StreamDataMessage {
    /// Packs the piece.
    pub fn pack(&self) -> (buf: Vec<u8>)
        ensures
            buf@ == stream_bytes(self.stream_id, self.data@, self.eof, self.compressed),
    {
        let mut header: u16 = self.stream_id % 0x4000;
        if self.eof {
            header = header + 0x8000;
        }
        if self.compressed {
            header = header + 0x4000;
        }
        let mut buf: Vec<u8> = Vec::new();
        wire::push_be(&mut buf, header as u64, 2);
        wire::push_all(&mut buf, self.data.as_slice());
        assert(buf@ =~= stream_bytes(self.stream_id, self.data@, self.eof, self.compressed));
        buf
    }

    /// Unpacks a piece, which takes at least 2 bytes.
    pub fn unpack(data: &[u8]) -> (r: Result<Self, BufferError>)
        ensures
            (match r {
                Ok(m) => parsed_stream(data@) == Some(
                    (m.stream_id, m.data@, m.eof, m.compressed),
                ),
                Err(e) => parsed_stream(data@) is None && (e matches BufferError::InvalidFormat(
                    t,
                ) && t@ == "too short"@),
            }),
    {
        if data.len() < 2 {
            return Err(BufferError::InvalidFormat("too short".to_owned()));
        }
        proof {
            wire::lemma_pow256_values();
        }
        let header: u64 = wire::read_be(data, 0, 2);
        Ok(
            StreamDataMessage {
                stream_id: (header % 0x4000) as u16,
                data: wire::copy_range(data, 2, data.len()),
                eof: header >= 0x8000,
                compressed: (header / 0x4000) % 2 == 1,
            },
        )
    }

    /// The most data that a piece can carry: the channel's MDU without the header.
    pub fn max_data_len(mdu: usize) -> (n: usize)
        ensures
            n == (if mdu >= 2 {
                mdu - 2
            } else {
                0
            }),
    {
        mdu.saturating_sub(2)
    }
}

// --- Reading ---

/// What pieces of a stream do to a reader: the bytes that can be read, and whether the
/// stream has ended. Messages of another type, pieces of other streams and malformed
/// ones do nothing.
pub open spec fn absorbed(
    stream_id: u16,
    buffer: Seq<u8>,
    eof: bool,
    messages: Seq<(u16, Seq<u8>)>,
) -> (Seq<u8>, bool)
    decreases messages.len(),
{
    if messages.len() == 0 {
        (buffer, eof)
    } else {
        let (b, e) = absorbed(stream_id, buffer, eof, messages.drop_last());
        let (t, payload) = messages.last();
        match parsed_stream(payload) {
            Some((id, data, last, _)) => if t == 0xFF00 && id == stream_id {
                (b + data, e || last)
            } else {
                (b, e)
            },
            None => (b, e),
        }
    }
}

/// Whether a message is a piece of a stream.
pub open spec fn is_piece_of(stream_id: u16, message: (u16, Seq<u8>)) -> bool {
    message.0 == 0xFF00 && (parsed_stream(message.1) matches Some(m) && m.0 == stream_id)
}

/// Whether there is a piece of a stream among some messages.
pub open spec fn has_piece_of(stream_id: u16, messages: Seq<(u16, Seq<u8>)>) -> bool {
    exists|i: int| 0 <= i < messages.len() && is_piece_of(stream_id, #[trigger] messages[i])
}

/// The messages that are no stream data, in order.
pub open spec fn other_messages(messages: Seq<(u16, Seq<u8>)>) -> Seq<(u16, Seq<u8>)>
    decreases messages.len(),
{
    if messages.len() == 0 {
        messages
    } else if messages.last().0 == 0xFF00 {
        other_messages(messages.drop_last())
    } else {
        other_messages(messages.drop_last()).push(messages.last())
    }
}

proof fn lemma_has_piece(stream_id: u16, messages: Seq<(u16, Seq<u8>)>)
    requires
        messages.len() > 0,
    ensures
        has_piece_of(stream_id, messages) <==> has_piece_of(stream_id, messages.drop_last())
            || is_piece_of(stream_id, messages.last()),
{
    let before = messages.drop_last();
    if has_piece_of(stream_id, messages) {
        let i = choose|i: int|
            0 <= i < messages.len() && is_piece_of(stream_id, #[trigger] messages[i]);
        if i < before.len() {
            assert(is_piece_of(stream_id, before[i]));
        }
    }
    if has_piece_of(stream_id, before) {
        let i = choose|i: int|
            0 <= i < before.len() && is_piece_of(stream_id, #[trigger] before[i]);
        assert(is_piece_of(stream_id, messages[i]));
    }
    if is_piece_of(stream_id, messages.last()) {
        assert(is_piece_of(stream_id, messages[messages.len() - 1]));
    }
}

/// Reads one stream from a channel.
pub struct RawChannelReader {
    pub stream_id: u16,
    /// Bytes that can be read.
    pub buffer: Vec<u8>,
    /// Whether the last piece has arrived.
    pub eof: bool,
    pub channel: Channel,
}

/// What taking in a packet returns, and what the reader becomes: the channel takes the
/// packet in, and the reader the stream data that it brings.
pub open spec fn reader_delivered(
    before: RawChannelReader,
    p: PacketModel,
    r: Result<bool, BufferError>,
    after: RawChannelReader,
) -> bool {
    &&& after.stream_id == before.stream_id
    &&& match before.channel.link.delivered(p) {
        Err(f) => (r matches Err(BufferError::Channel(ChannelError::Transport(e))) && e@ == f)
            && after == before,
        Ok(m) => {
            let (state, rest, fault) = channel::accept_all(
                before.channel.receiving(),
                wire::all_bytes(before.channel.link.inbound@).push(m),
            );
            &&& wire::all_bytes(after.channel.link.inbound@) == rest
            &&& after.channel.link == Link {
                inbound: after.channel.link.inbound,
                ..before.channel.link
            }
            &&& after.channel.outgoing_seq == before.channel.outgoing_seq
            &&& match fault {
                Some(f) => {
                    &&& r matches Err(BufferError::Channel(ChannelError::Transport(e))) && e@ == f
                    &&& after.channel.receiving() == state
                    &&& after.buffer == before.buffer
                    &&& after.eof == before.eof
                },
                None => {
                    &&& r == Ok::<bool, BufferError>(
                        has_piece_of(before.stream_id, state.dispatched),
                    )
                    &&& after.channel.receiving() == channel::Receiving {
                        dispatched: other_messages(state.dispatched),
                        ..state
                    }
                    &&& (after.buffer@, after.eof) == absorbed(
                        before.stream_id,
                        before.buffer@,
                        before.eof,
                        state.dispatched,
                    )
                },
            }
        },
    }
}

impl RawChannelReader {
    /// A reader of a stream; stream data on the channel is handled by it.
    pub fn new(channel: Channel, stream_id: u16) -> (reader: Self)
        ensures
            reader.stream_id == stream_id,
            reader.buffer@ == Seq::<u8>::empty(),
            !reader.eof,
            reader.channel.link == channel.link,
            reader.channel.outgoing_seq == channel.outgoing_seq,
            reader.channel.receiving() == (channel::Receiving {
                handled: channel.receiving().handled.insert(0xFF00),
                ..channel.receiving()
            }),
    {
        let mut channel = channel;
        channel.register_handler(SystemMessageType::SMT_STREAM_DATA);
        RawChannelReader { stream_id, buffer: Vec::new(), eof: false, channel }
    }

    /// Takes in one piece; true where it belongs to this stream, so that waiting readers
    /// look again.
    pub fn accept(&mut self, payload: &[u8]) -> (mine: bool)
        ensures
            (final(self).buffer@, final(self).eof) == absorbed(
                old(self).stream_id,
                old(self).buffer@,
                old(self).eof,
                seq![(0xFF00u16, payload@)],
            ),
            mine <==> (parsed_stream(payload@) matches Some(m) && m.0 == old(self).stream_id),
            *final(self) == (RawChannelReader {
                buffer: final(self).buffer,
                eof: final(self).eof,
                ..*old(self)
            }),
    {
        proof {
            let one = seq![(0xFF00u16, payload@)];
            assert(one.drop_last() =~= Seq::empty());
            reveal_with_fuel(absorbed, 2);
        }
        match StreamDataMessage::unpack(payload) {
            Ok(m) => {
                if m.stream_id == self.stream_id {
                    if m.eof {
                        self.eof = true;
                    }
                    wire::push_all(&mut self.buffer, m.data.as_slice());
                    true
                } else {
                    false
                }
            },
            Err(_) => false,
        }
    }

    /// Takes in all stream data that the channel has for its handler; true where some of
    /// it belongs to this stream. Messages of other types stay.
    pub fn absorb(&mut self) -> (woken: bool)
        ensures
            (final(self).buffer@, final(self).eof) == absorbed(
                old(self).stream_id,
                old(self).buffer@,
                old(self).eof,
                old(self).channel.receiving().dispatched,
            ),
            final(self).stream_id == old(self).stream_id,
            final(self).channel.link == old(self).channel.link,
            final(self).channel.outgoing_seq == old(self).channel.outgoing_seq,
            final(self).channel.receiving() == (channel::Receiving {
                dispatched: other_messages(old(self).channel.receiving().dispatched),
                ..old(self).channel.receiving()
            }),
            woken <==> has_piece_of(
                old(self).stream_id,
                old(self).channel.receiving().dispatched,
            ),
    {
        let mut woken: bool = false;
        let mut others: VecDeque<(u16, Vec<u8>)> = VecDeque::new();
        let ghost all = self.channel.receiving().dispatched;
        let ghost mut k: int = 0;
        proof {
            assert(all.subrange(0, 0) =~= Seq::empty());
            assert(all.subrange(0, all.len() as int) =~= all);
            assert(channel::typed(others@) =~= Seq::empty());
        }
        loop
            invariant
                0 <= k <= all.len(),
                self.channel.receiving() == (channel::Receiving {
                    dispatched: all.subrange(k, all.len() as int),
                    ..old(self).channel.receiving()
                }),
                (self.buffer@, self.eof) == absorbed(
                    old(self).stream_id,
                    old(self).buffer@,
                    old(self).eof,
                    all.subrange(0, k),
                ),
                channel::typed(others@) == other_messages(all.subrange(0, k)),
                woken <==> has_piece_of(old(self).stream_id, all.subrange(0, k)),
                self.stream_id == old(self).stream_id,
                self.channel.link == old(self).channel.link,
                self.channel.outgoing_seq == old(self).channel.outgoing_seq,
            ensures
                k == all.len(),
            decreases all.len() - k,
        {
            let ghost before = self.channel.dispatched@;
            proof {
                assert(self.channel.receiving().dispatched == channel::typed(before));
                assert(before.len() == all.len() - k);
            }
            match self.channel.next_dispatch() {
                Some((t, payload)) => {
                    let ghost kept = others@;
                    proof {
                        assert(channel::typed(before)[0] == (t, payload@));
                        assert(all.subrange(k, all.len() as int)[0] == all[k]);
                        assert(all.subrange(0, k + 1).drop_last() =~= all.subrange(0, k));
                        assert(all.subrange(0, k + 1).last() == all[k]);
                        assert(all.subrange(k, all.len() as int).subrange(1, all.len() - k)
                            =~= all.subrange(k + 1, all.len() as int));
                        let one = seq![(0xFF00u16, payload@)];
                        assert(one.drop_last() =~= Seq::empty());
                        reveal_with_fuel(absorbed, 2);
                        lemma_has_piece(self.stream_id, all.subrange(0, k + 1));
                    }
                    if t == 0xFF00 {
                        let mine: bool = self.accept(payload.as_slice());
                        woken = woken || mine;
                    } else {
                        others.push_back((t, payload));
                        assert(channel::typed(others@) =~= channel::typed(kept).push(
                            (t, payload@),
                        ));
                    }
                    proof {
                        k = k + 1;
                    }
                },
                None => {
                    assert(self.channel.receiving().dispatched.len() == before.len());
                    break;
                },
            }
        }
        assert(all.subrange(0, k) =~= all);
        self.channel.dispatched = others;
        woken
    }

    /// Takes in a packet for the channel, and the stream data that it brings.
    pub fn deliver(&mut self, packet: &Packet) -> (r: Result<bool, BufferError>)
        ensures
            reader_delivered(*old(self), packet@, r, *final(self)),
    {
        match self.channel.deliver(packet) {
            Ok(_) => Ok(self.absorb()),
            Err(e) => Err(BufferError::Channel(e)),
        }
    }

    /// Reads up to `max` bytes: none where there are none yet. A stream that has ended and
    /// was read to its end is an error.
    pub fn read(&mut self, max: usize) -> (r: Result<Vec<u8>, BufferError>)
        ensures
            (if old(self).eof && old(self).buffer@.len() == 0 {
                r == Err::<Vec<u8>, BufferError>(BufferError::StreamClosed) && *final(self) == *old(
                    self)
            } else {
                let n = if old(self).buffer@.len() < max {
                    old(self).buffer@.len() as int
                } else {
                    max as int
                };
                &&& r matches Ok(b) && b@ == old(self).buffer@.subrange(0, n)
                &&& final(self).buffer@ == old(self).buffer@.subrange(
                    n,
                    old(self).buffer@.len() as int,
                )
                &&& *final(self) == (RawChannelReader {
                    buffer: final(self).buffer,
                    ..*old(self)
                })
            }),
    {
        if self.is_closed() {
            return Err(BufferError::StreamClosed);
        }
        let available: usize = self.buffer.len();
        let n: usize = if available < max {
            available
        } else {
            max
        };
        let out: Vec<u8> = wire::copy_range(self.buffer.as_slice(), 0, n);
        let rest: Vec<u8> = wire::copy_range(self.buffer.as_slice(), n, available);
        self.buffer = rest;
        Ok(out)
    }

    /// Whether the stream has ended and everything was read.
    pub fn is_closed(&self) -> (r: bool)
        ensures
            r <==> self.eof && self.buffer@.len() == 0,
    {
        self.eof && self.buffer.len() == 0
    }

    /// The stream id.
    pub fn stream_id(&self) -> (id: u16)
        ensures
            id == self.stream_id,
    {
        self.stream_id
    }
}

// --- Writing ---

/// Writes a stream to a channel, piece by piece.
pub struct RawChannelWriter {
    pub stream_id: u16,
    pub channel: Channel,
    /// The most data that a piece can carry.
    pub max_data_len: usize,
    /// The packets that were made and not taken yet.
    pub outbound: Vec<Packet>,
}

/// The most data that a piece can carry over a link.
pub open spec fn piece_limit(mtu: u16) -> nat {
    if mtu >= 8 {
        (mtu - 8) as nat
    } else {
        0
    }
}

/// The pieces of some data, of at most `max` bytes. Where a piece can carry nothing, a
/// single empty one.
pub open spec fn pieces_of(data: Seq<u8>, max: nat) -> Seq<Seq<u8>> {
    if max == 0 {
        seq![Seq::empty()]
    } else {
        Seq::new(
            pieces::piece_count(data.len(), max),
            |i: int| pieces::piece(data, max, i as nat),
        )
    }
}

/// What sending some pieces makes: the channel before, between and after them, the
/// randomness that each one used, and the packets.
pub struct Sending {
    pub channels: Seq<Channel>,
    pub ephemerals: Seq<Seq<u8>>,
    pub ivs: Seq<Seq<u8>>,
    pub packets: Seq<Packet>,
}

/// Whether all pieces of a stream were sent, one after the other.
pub open spec fn all_sent(s: Sending, stream_id: u16, parts: Seq<Seq<u8>>) -> bool {
    &&& s.channels.len() == parts.len() + 1
    &&& s.ephemerals.len() == parts.len()
    &&& s.ivs.len() == parts.len()
    &&& s.packets.len() == parts.len()
    &&& forall|i: int|
        0 <= i < parts.len() ==> piece_sent(s, stream_id, #[trigger] parts[i], i)
}

/// Whether piece `i` of a stream was sent.
pub open spec fn piece_sent(s: Sending, stream_id: u16, part: Seq<u8>, i: int) -> bool {
    &&& s.ephemerals[i].len() == 32
    &&& s.ivs[i].len() == 16
    &&& channel::channel_send_effect(
        s.channels[i],
        s.channels[i + 1],
        SystemMessageType::SMT_STREAM_DATA,
        stream_bytes(stream_id, part, false, false),
        s.ephemerals[i],
        s.ivs[i],
        Ok(s.packets[i]),
    )
}

/// What writing does: the pieces of the data are sent, and their packets kept.
pub open spec fn written(
    s: Sending,
    before: RawChannelWriter,
    after: RawChannelWriter,
    data: Seq<u8>,
) -> bool {
    &&& all_sent(s, before.stream_id, pieces_of(data, before.max_data_len as nat))
    &&& s.channels[0] == before.channel
    &&& s.channels.last() == after.channel
    &&& after.outbound@ == before.outbound@ + s.packets
    &&& after == RawChannelWriter {
        channel: after.channel,
        outbound: after.outbound,
        ..before
    }
}

/// Whether a channel can send a piece with `n` bytes of data.
pub open spec fn sends_piece(c: Channel, n: nat) -> bool {
    &&& c.link.state == LinkState::Established
    &&& n + 8 <= c.link.config.mtu
    &&& c.link.payload_len(n + 8) <= c.link.config.mtu
}

/// How much data the first piece carries.
pub open spec fn first_len(len: nat, max: nat) -> nat {
    if len < max {
        len
    } else {
        max
    }
}

/// What is wrong with a piece that cannot be sent.
pub open spec fn unsent(c: Channel, n: nat) -> ChannelError {
    if n + 8 > c.link.config.mtu {
        ChannelError::MessageTooLarge((n + 2) as usize, (c.link.config.mtu - 6) as usize)
    } else if c.link.state != LinkState::Established {
        ChannelError::Transport(TransportError::LinkNotEstablished)
    } else {
        ChannelError::Transport(
            TransportError::InvalidChunkSize(c.link.payload_len(n + 8) as usize),
        )
    }
}

/// The channel after a piece was refused. One that the channel takes and the link does
/// not has used up its number.
pub open spec fn refused(c: Channel, n: nat) -> Channel {
    if n + 8 > c.link.config.mtu {
        c
    } else {
        Channel { outgoing_seq: channel::after(c.outgoing_seq), ..c }
    }
}

/// A piece is sent where the channel can send one of its length, and then the channel can
/// send the same lengths as before.
proof fn lemma_sends(
    before: Channel,
    after: Channel,
    stream_id: u16,
    part: Seq<u8>,
    eof: bool,
    ephemeral: Seq<u8>,
    iv: Seq<u8>,
    r: Result<Packet, ChannelError>,
)
    requires
        before.link.config.mtu >= 6,
        part.len() <= usize::MAX - 100,
        channel::channel_send_effect(
            before,
            after,
            SystemMessageType::SMT_STREAM_DATA,
            stream_bytes(stream_id, part, eof, false),
            ephemeral,
            iv,
            r,
        ),
    ensures
        r is Ok <==> sends_piece(before, part.len()),
        r is Err ==> r->Err_0 == unsent(before, part.len()) && after == refused(before, part.len()),
        after.link.config == before.link.config,
        forall|n: nat| #[trigger] sends_piece(after, n) <==> sends_piece(before, n),
{
    law_stream_roundtrip(stream_id, part, eof, false);
    message::law_envelope_roundtrip(
        SystemMessageType::SMT_STREAM_DATA.number(),
        before.outgoing_seq,
        stream_bytes(stream_id, part, eof, false),
    );
    if r is Ok {
        assert forall|n: nat| #[trigger] sends_piece(after, n) <==> sends_piece(before, n) by {
            assert(after.link.payload_len(n + 8) == before.link.payload_len(n + 8));
        }
    }
}

impl RawChannelWriter {
    /// The pieces are cut to what the channel takes.
    pub open spec fn wf(&self) -> bool {
        &&& self.channel.link.config.mtu >= 6
        &&& self.max_data_len == piece_limit(self.channel.link.config.mtu)
    }

    /// A writer of a stream.
    pub fn new(channel: Channel, stream_id: u16) -> (w: Self)
        requires
            channel.link.config.mtu >= 6,
        ensures
            w.wf(),
            w.stream_id == stream_id,
            w.channel == channel,
            w.outbound@.len() == 0,
    {
        let mdu: usize = channel.mdu();
        RawChannelWriter {
            stream_id,
            channel,
            max_data_len: StreamDataMessage::max_data_len(mdu),
            outbound: Vec::new(),
        }
    }

    /// Sends one piece, and keeps its packet.
    fn send_piece(&mut self, data: Vec<u8>, eof: bool) -> (r: Result<(), BufferError>)
        requires
            old(self).wf(),
            data@.len() <= usize::MAX - 100,
        ensures
            final(self).wf(),
            exists|ephemeral: Seq<u8>, iv: Seq<u8>, sent: Result<Packet, ChannelError>|
                #[trigger] sent_one(
                    *old(self),
                    *final(self),
                    data@,
                    eof,
                    ephemeral,
                    iv,
                    sent,
                ),
            r == (if sends_piece(old(self).channel, data@.len()) {
                Ok::<(), BufferError>(())
            } else {
                Err(BufferError::Channel(unsent(old(self).channel, data@.len())))
            }),
            r is Err ==> final(self).channel == refused(old(self).channel, data@.len()) && final(
                self).outbound == old(self).outbound,
    {
        let m: StreamDataMessage = StreamDataMessage {
            stream_id: self.stream_id,
            data,
            eof,
            compressed: false,
        };
        let piece: Vec<u8> = m.pack();
        let sent: Result<Packet, ChannelError> = self.channel.send_typed(
            SystemMessageType::SMT_STREAM_DATA,
            piece,
        );
        let ghost (ephemeral, iv) = choose|ephemeral: Seq<u8>, iv: Seq<u8>|
            ephemeral.len() == 32 && iv.len() == 16 && #[trigger] channel::channel_send_effect(
                old(self).channel,
                self.channel,
                SystemMessageType::SMT_STREAM_DATA,
                piece@,
                ephemeral,
                iv,
                sent,
            );
        proof {
            lemma_sends(
                old(self).channel,
                self.channel,
                self.stream_id,
                data@,
                eof,
                ephemeral,
                iv,
                sent,
            );
        }
        match sent {
            Ok(p) => {
                self.outbound.push(p);
                assert(sent_one(*old(self), *self, data@, eof, ephemeral, iv, sent));
                Ok(())
            },
            Err(e) => {
                assert(sent_one(*old(self), *self, data@, eof, ephemeral, iv, sent));
                Err(BufferError::Channel(e))
            },
        }
    }

    /// Writes data: cuts it into pieces and sends them. The packets can then be taken.
    /// Returns how many bytes were written: all, unless a piece can carry none. Where the
    /// first piece cannot be sent, nothing is.
    pub fn write(&mut self, data: &[u8]) -> (r: Result<usize, BufferError>)
        requires
            old(self).wf(),
        ensures
            final(self).wf(),
            data@.len() == 0 ==> r == Ok::<usize, BufferError>(0) && *final(self) == *old(self),
            data@.len() > 0 ==> {
                let first = first_len(data@.len(), old(self).max_data_len as nat);
                if sends_piece(old(self).channel, first) {
                    &&& r == Ok::<usize, BufferError>(
                        if old(self).max_data_len == 0 {
                            0
                        } else {
                            data@.len() as usize
                        },
                    )
                    &&& exists|s: Sending| #[trigger] written(s, *old(self), *final(self), data@)
                } else {
                    &&& r == Err::<usize, BufferError>(
                        BufferError::Channel(unsent(old(self).channel, first)),
                    )
                    &&& *final(self) == (RawChannelWriter {
                        channel: refused(old(self).channel, first),
                        outbound: final(self).outbound,
                        ..*old(self)
                    })
                    &&& final(self).outbound@ == old(self).outbound@
                }
            },
    {
        if data.len() == 0 {
            return Ok(0);
        }
        let max: usize = self.max_data_len;
        let parts: Vec<Vec<u8>> = if max == 0 {
            let mut one: Vec<Vec<u8>> = Vec::new();
            one.push(Vec::new());
            assert(wire::all_bytes(one@) =~= pieces_of(data@, 0));
            one
        } else {
            pieces::split(data, max)
        };
        let ghost all = pieces_of(data@, max as nat);
        let ghost mut s = Sending {
            channels: seq![self.channel],
            ephemerals: Seq::empty(),
            ivs: Seq::empty(),
            packets: Seq::empty(),
        };
        let mut i: usize = 0;
        assert(self.outbound@ + s.packets =~= self.outbound@);
        while i < parts.len()
            invariant
                i <= parts@.len(),
                max <= u16::MAX,
                max == old(self).max_data_len,
                data@.len() > 0,
                all == wire::all_bytes(parts@),
                all == pieces_of(data@, max as nat),
                self.wf(),
                *self == (RawChannelWriter {
                    channel: self.channel,
                    outbound: self.outbound,
                    ..*old(self)
                }),
                all_sent(s, self.stream_id, all.subrange(0, i as int)),
                s.channels[0] == old(self).channel,
                s.channels.last() == self.channel,
                self.outbound@ == old(self).outbound@ + s.packets,
                forall|n: nat| #[trigger]
                    sends_piece(self.channel, n) <==> sends_piece(old(self).channel, n),
                i > 0 ==> sends_piece(
                    old(self).channel,
                    first_len(data@.len(), max as nat),
                ),
                i == 0 ==> *self == *old(self),
            decreases parts@.len() - i,
        {
            let ghost before = *self;
            let ghost part = all[i as int];
            proof {
                assert(all.len() == parts@.len());
                if max > 0 {
                    assert(all[i as int] == pieces::piece(data@, max as nat, i as nat));
                    lemma_piece_len(data@, max as nat, i as nat);
                }
                assert(parts@[i as int]@ == part);
                lemma_sends_shorter(
                    before.channel,
                    first_len(data@.len(), max as nat),
                    part.len(),
                );
            }
            let sent: Result<(), BufferError> = self.send_piece(
                wire::copy_all(parts[i].as_slice()),
                false,
            );
            let ghost (ephemeral, iv, made) = choose|
                ephemeral: Seq<u8>,
                iv: Seq<u8>,
                made: Result<Packet, ChannelError>,
            | #[trigger]
                sent_one(before, *self, part, false, ephemeral, iv, made);
            match sent {
                Ok(_) => {},
                Err(e) => {
                    assert(i == 0);
                    return Err(e);
                },
            }
            proof {
                lemma_sends(
                    before.channel,
                    self.channel,
                    self.stream_id,
                    part,
                    false,
                    ephemeral,
                    iv,
                    made,
                );
                let t = Sending {
                    channels: s.channels.push(self.channel),
                    ephemerals: s.ephemerals.push(ephemeral),
                    ivs: s.ivs.push(iv),
                    packets: s.packets.push(made->Ok_0),
                };
                let front = all.subrange(0, i as int);
                let now = all.subrange(0, i + 1);
                assert forall|j: int| 0 <= j < now.len() implies piece_sent(
                    t,
                    self.stream_id,
                    #[trigger] now[j],
                    j,
                ) by {
                    if j < i {
                        assert(front[j] == now[j]);
                        assert(piece_sent(s, self.stream_id, front[j], j));
                    }
                }
                assert(self.outbound@ =~= old(self).outbound@ + t.packets);
                s = t;
            }
            i = i + 1;
        }
        proof {
            assert(all.subrange(0, i as int) =~= all);
            assert(parts@.len() == all.len());
            assert(all.len() > 0);
            assert(written(s, *old(self), *self, data@));
        }
        if max == 0 {
            return Ok(0);
        }
        Ok(data.len())
    }

    /// Ends the stream with an empty last piece. Its packet can then be taken.
    pub fn close(&mut self) -> (r: Result<(), BufferError>)
        requires
            old(self).wf(),
        ensures
            final(self).wf(),
            exists|ephemeral: Seq<u8>, iv: Seq<u8>, sent: Result<Packet, ChannelError>|
                #[trigger] sent_one(
                    *old(self),
                    *final(self),
                    Seq::empty(),
                    true,
                    ephemeral,
                    iv,
                    sent,
                ),
            r == (if sends_piece(old(self).channel, 0) {
                Ok::<(), BufferError>(())
            } else {
                Err(BufferError::Channel(unsent(old(self).channel, 0)))
            }),
    {
        let nothing: Vec<u8> = Vec::new();
        assert(nothing@ =~= Seq::<u8>::empty());
        self.send_piece(nothing, true)
    }

    /// Takes the packets that were made, in order, to be sent.
    pub fn take_outbound(&mut self) -> (packets: Vec<Packet>)
        ensures
            packets@ == old(self).outbound@,
            final(self).outbound@.len() == 0,
            *final(self) == (RawChannelWriter { outbound: final(self).outbound, ..*old(self) }),
    {
        let mut packets: Vec<Packet> = Vec::new();
        packets.append(&mut self.outbound);
        assert(packets@ =~= old(self).outbound@);
        packets
    }

    /// The most data that a piece can carry.
    pub fn max_data_len(&self) -> (n: usize)
        ensures
            n == self.max_data_len,
    {
        self.max_data_len
    }

    /// The channel.
    pub fn channel(&self) -> (c: &Channel)
        ensures
            *c == self.channel,
    {
        &self.channel
    }
}

/// What sending one piece does: a packet that was made is kept.
pub open spec fn sent_one(
    before: RawChannelWriter,
    after: RawChannelWriter,
    data: Seq<u8>,
    eof: bool,
    ephemeral: Seq<u8>,
    iv: Seq<u8>,
    sent: Result<Packet, ChannelError>,
) -> bool {
    &&& ephemeral.len() == 32
    &&& iv.len() == 16
    &&& channel::channel_send_effect(
        before.channel,
        after.channel,
        SystemMessageType::SMT_STREAM_DATA,
        stream_bytes(before.stream_id, data, eof, false),
        ephemeral,
        iv,
        sent,
    )
    &&& match sent {
        Ok(p) => after.outbound@ == before.outbound@.push(p),
        Err(_) => after.outbound == before.outbound,
    }
    &&& after == RawChannelWriter {
        channel: after.channel,
        outbound: after.outbound,
        ..before
    }
}

/// No piece is longer than the first.
proof fn lemma_piece_len(data: Seq<u8>, max: nat, i: nat)
    requires
        max > 0,
        i < pieces::piece_count(data.len(), max),
    ensures
        pieces::piece(data, max, i).len() <= first_len(data.len(), max),
        i == 0 ==> pieces::piece(data, max, i).len() == first_len(data.len(), max),
{
    pieces::lemma_piece_ends(data.len(), max, i);
    assert(0 * max == 0) by (nonlinear_arith);
    assert(1 * max == max) by (nonlinear_arith);
}

/// Who can send a piece can send a shorter one.
proof fn lemma_sends_shorter(c: Channel, n: nat, m: nat)
    requires
        m <= n,
    ensures
        sends_piece(c, n) ==> sends_piece(c, m),
{
    assert(primitives::padded_len(m + 8) <= primitives::padded_len(n + 8));
}

/// Makes readers and writers.
pub struct Buffer;

impl Buffer {
    /// A reader of a stream.
    pub fn create_reader(channel: Channel, stream_id: u16) -> (reader: RawChannelReader)
        ensures
            reader.stream_id == stream_id,
            reader.buffer@ == Seq::<u8>::empty(),
            !reader.eof,
            reader.channel.link == channel.link,
            reader.channel.outgoing_seq == channel.outgoing_seq,
            reader.channel.receiving() == (channel::Receiving {
                handled: channel.receiving().handled.insert(0xFF00),
                ..channel.receiving()
            }),
    {
        RawChannelReader::new(channel, stream_id)
    }

    /// A writer of a stream.
    pub fn create_writer(channel: Channel, stream_id: u16) -> (w: RawChannelWriter)
        requires
            channel.link.config.mtu >= 6,
        ensures
            w.wf(),
            w.stream_id == stream_id,
            w.channel == channel,
            w.outbound@.len() == 0,
    {
        RawChannelWriter::new(channel, stream_id)
    }

    /// A reader and a writer, each on a channel of its own.
    pub fn create_bidirectional(
        recv_channel: Channel,
        send_channel: Channel,
        receive_id: u16,
        send_id: u16,
    ) -> (pair: (RawChannelReader, RawChannelWriter))
        requires
            send_channel.link.config.mtu >= 6,
        ensures
            pair.0.stream_id == receive_id,
            pair.0.buffer@ == Seq::<u8>::empty(),
            !pair.0.eof,
            pair.0.channel.link == recv_channel.link,
            pair.0.channel.outgoing_seq == recv_channel.outgoing_seq,
            pair.0.channel.receiving() == (channel::Receiving {
                handled: recv_channel.receiving().handled.insert(0xFF00),
                ..recv_channel.receiving()
            }),
            pair.1.wf(),
            pair.1.stream_id == send_id,
            pair.1.channel == send_channel,
            pair.1.outbound@.len() == 0,
    {
        (
            RawChannelReader::new(recv_channel, receive_id),
            RawChannelWriter::new(send_channel, send_id),
        )
    }
}

/// Writing and reading agree: what a reader takes in of a written piece is its data.
pub proof fn law_stream_delivers(stream_id: u16, buffer: Seq<u8>, eof: bool, data: Seq<u8>, last: bool)
    requires
        stream_id <= STREAM_ID_MAX,
    ensures
        absorbed(
            stream_id,
            buffer,
            eof,
            seq![(0xFF00u16, stream_bytes(stream_id, data, last, false))],
        ) == (buffer + data, eof || last),
{
    law_stream_roundtrip(stream_id, data, last, false);
    let one = seq![(0xFF00u16, stream_bytes(stream_id, data, last, false))];
    assert(one.drop_last() =~= Seq::empty());
    reveal_with_fuel(absorbed, 2);
}

/// The messages that carry pieces of a stream.
pub open spec fn carried(stream_id: u16, pieces: Seq<Seq<u8>>) -> Seq<(u16, Seq<u8>)> {
    Seq::new(pieces.len(), |i: int| (0xFF00u16, stream_bytes(stream_id, pieces[i], false, false)))
}

/// The bytes of a stream are read in the order of its pieces.
pub proof fn law_stream_order(stream_id: u16, buffer: Seq<u8>, eof: bool, pieces: Seq<Seq<u8>>)
    requires
        stream_id <= STREAM_ID_MAX,
    ensures
        absorbed(stream_id, buffer, eof, carried(stream_id, pieces)) == (
            buffer + pieces.flatten(),
            eof,
        ),
    decreases pieces.len(),
{
    let messages = carried(stream_id, pieces);
    if pieces.len() == 0 {
        assert(pieces.flatten() =~= Seq::<u8>::empty());
        assert(buffer + pieces.flatten() =~= buffer);
    } else {
        let before = pieces.drop_last();
        law_stream_order(stream_id, buffer, eof, before);
        assert(messages.drop_last() =~= carried(stream_id, before));
        law_stream_roundtrip(stream_id, pieces.last(), false, false);
        before.lemma_flatten_push(pieces.last());
        assert(before.push(pieces.last()) =~= pieces);
        assert(buffer + before.flatten() + pieces.last() =~= buffer + pieces.flatten());
    }
}

/// What a piece that was sent brings to the reader at the other end of the link.
proof fn lemma_piece_read(
    near: Channel,
    after_it: Channel,
    stream_id: u16,
    reader: RawChannelReader,
    later: RawChannelReader,
    r: Result<bool, BufferError>,
    data: Seq<u8>,
    last: bool,
    ephemeral: Seq<u8>,
    iv: Seq<u8>,
    p: Packet,
)
    requires
        stream_id <= STREAM_ID_MAX,
        reader.stream_id == stream_id,
        link::ends_of_one_link(near.link, reader.channel.link),
        ready_to_read(reader),
        channel::channel_send_effect(
            near,
            after_it,
            SystemMessageType::SMT_STREAM_DATA,
            stream_bytes(stream_id, data, last, false),
            ephemeral,
            iv,
            Ok(p),
        ),
        reader_delivered(reader, p@, r, later),
    ensures
        r == Ok::<bool, BufferError>(true),
        later.buffer@ == reader.buffer@ + data,
        later.eof == (reader.eof || last),
        later.stream_id == stream_id,
        ready_to_read(later),
        later.channel.link == (Link {
            inbound: later.channel.link.inbound,
            ..reader.channel.link
        }),
        after_it.link == (Link { outbound: after_it.link.outbound, ..near.link }),
{
    let piece = stream_bytes(stream_id, data, last, false);
    channel::law_channel_delivers(
        near,
        after_it,
        reader.channel,
        SystemMessageType::SMT_STREAM_DATA,
        piece,
        ephemeral,
        iv,
        p,
    );
    law_stream_delivers(stream_id, reader.buffer@, reader.eof, data, last);
    law_stream_roundtrip(stream_id, data, last, false);
    let start = reader.channel.receiving();
    let state = channel::accept(start, 0xFF00, near.outgoing_seq, piece);
    assert(state.dispatched =~= seq![(0xFF00u16, piece)]);
    assert(is_piece_of(reader.stream_id, state.dispatched[0]));
    assert(state.dispatched.drop_last() =~= Seq::empty());
    reveal_with_fuel(other_messages, 2);
    assert(wire::all_bytes(later.channel.link.inbound@).len() == 0);
}

/// Whether a reader has taken in all that its channel has for it.
pub open spec fn ready_to_read(reader: RawChannelReader) -> bool {
    &&& reader.channel.link.inbound@.len() == 0
    &&& reader.channel.receiving().handled.contains(0xFF00)
    &&& reader.channel.receiving().dispatched.len() == 0
}

proof fn lemma_pieces_read(
    s: Sending,
    stream_id: u16,
    data: Seq<u8>,
    max: nat,
    readers: Seq<RawChannelReader>,
    results: Seq<Result<bool, BufferError>>,
    k: int,
)
    requires
        max > 0,
        stream_id <= STREAM_ID_MAX,
        all_sent(s, stream_id, pieces_of(data, max)),
        readers.len() == s.packets.len() + 1,
        results.len() == s.packets.len(),
        readers[0].stream_id == stream_id,
        link::ends_of_one_link(s.channels[0].link, readers[0].channel.link),
        ready_to_read(readers[0]),
        forall|i: int|
            0 <= i < s.packets.len() ==> reader_delivered(
                readers[i],
                #[trigger] s.packets[i]@,
                results[i],
                readers[i + 1],
            ),
        0 <= k <= s.packets.len(),
    ensures
        forall|i: int| 0 <= i < k ==> #[trigger] results[i] == Ok::<bool, BufferError>(true),
        readers[k].buffer@ == readers[0].buffer@ + data.subrange(
            0,
            pieces::piece_end(data.len(), max, k as nat) as int,
        ),
        readers[k].eof == readers[0].eof,
        readers[k].stream_id == stream_id,
        ready_to_read(readers[k]),
        link::ends_of_one_link(s.channels[k].link, readers[k].channel.link),
    decreases k,
{
    pieces::lemma_piece_ends(data.len(), max, k as nat);
    if k == 0 {
        assert(0 * max == 0) by (nonlinear_arith);
        assert(data.subrange(0, 0) =~= Seq::empty());
        assert(readers[0].buffer@ + data.subrange(0, 0) =~= readers[0].buffer@);
    } else {
        let j = k - 1;
        lemma_pieces_read(s, stream_id, data, max, readers, results, j);
        pieces::lemma_piece_ends(data.len(), max, j as nat);
        let parts = pieces_of(data, max);
        let part = pieces::piece(data, max, j as nat);
        assert(parts[j] == part);
        assert(piece_sent(s, stream_id, parts[j], j));
        assert(reader_delivered(readers[j], s.packets[j]@, results[j], readers[k]));
        lemma_piece_read(
            s.channels[j],
            s.channels[k],
            stream_id,
            readers[j],
            readers[k],
            results[j],
            part,
            false,
            s.ephemerals[j],
            s.ivs[j],
            s.packets[j],
        );
        let from = pieces::piece_end(data.len(), max, j as nat) as int;
        let to = pieces::piece_end(data.len(), max, k as nat) as int;
        assert(data.subrange(0, from) + part =~= data.subrange(0, to));
        assert(readers[j].buffer@ + part =~= readers[0].buffer@ + data.subrange(0, to));
    }
}

/// What a writer wrote, the reader at the other end of the link can read: the packets of
/// the data, delivered in order, add the data to what can be read, and the stream goes on.
/// `readers` and `results` are what the calls of [`RawChannelReader::deliver`] make and
/// return.
pub proof fn law_written_is_read(
    s: Sending,
    writer: RawChannelWriter,
    after: RawChannelWriter,
    data: Seq<u8>,
    readers: Seq<RawChannelReader>,
    results: Seq<Result<bool, BufferError>>,
)
    requires
        writer.wf(),
        writer.stream_id <= STREAM_ID_MAX,
        writer.max_data_len > 0,
        written(s, writer, after, data),
        readers.len() == s.packets.len() + 1,
        results.len() == s.packets.len(),
        readers[0].stream_id == writer.stream_id,
        link::ends_of_one_link(writer.channel.link, readers[0].channel.link),
        ready_to_read(readers[0]),
        forall|i: int|
            0 <= i < s.packets.len() ==> reader_delivered(
                readers[i],
                #[trigger] s.packets[i]@,
                results[i],
                readers[i + 1],
            ),
    ensures
        forall|i: int|
            0 <= i < s.packets.len() ==> #[trigger] results[i] == Ok::<bool, BufferError>(true),
        readers.last().buffer@ == readers[0].buffer@ + data,
        readers.last().eof == readers[0].eof,
        ready_to_read(readers.last()),
        link::ends_of_one_link(after.channel.link, readers.last().channel.link),
{
    let max = writer.max_data_len as nat;
    let n = s.packets.len() as int;
    lemma_pieces_read(s, writer.stream_id, data, max, readers, results, n);
    pieces::lemma_piece_ends(data.len(), max, n as nat);
    assert(data.subrange(0, data.len() as int) =~= data);
}

/// The end that a writer tells reaches the reader at the other end of the link.
pub proof fn law_end_is_read(
    writer: RawChannelWriter,
    after: RawChannelWriter,
    ephemeral: Seq<u8>,
    iv: Seq<u8>,
    p: Packet,
    reader: RawChannelReader,
    later: RawChannelReader,
    r: Result<bool, BufferError>,
)
    requires
        writer.stream_id <= STREAM_ID_MAX,
        sent_one(writer, after, Seq::empty(), true, ephemeral, iv, Ok(p)),
        reader.stream_id == writer.stream_id,
        link::ends_of_one_link(writer.channel.link, reader.channel.link),
        ready_to_read(reader),
        reader_delivered(reader, p@, r, later),
    ensures
        r == Ok::<bool, BufferError>(true),
        later.eof,
        later.buffer@ == reader.buffer@,
{
    lemma_piece_read(
        writer.channel,
        after.channel,
        writer.stream_id,
        reader,
        later,
        r,
        Seq::empty(),
        true,
        ephemeral,
        iv,
        p,
    );
    assert(reader.buffer@ + Seq::<u8>::empty() =~= reader.buffer@);
}

/// A piece of a stream begins with two bytes: the highest bit tells the end, the next one
/// compression, and the other fourteen the stream. Then comes the data. What is shorter is
/// none.
pub proof fn law_stream_layout(stream_id: u16, data: Seq<u8>, eof: bool, compressed: bool, b: Seq<u8>)
    requires
        stream_id < 0x4000,
    ensures
        ({
            let s = stream_bytes(stream_id, data, eof, compressed);
            &&& s[0] * 256 + s[1] == stream_id + (if eof {
                0x8000int
            } else {
                0
            }) + (if compressed {
                0x4000int
            } else {
                0
            })
            &&& s.subrange(2, s.len() as int) == data
        }),
        parsed_stream(b) is None <==> b.len() < 2,
{
    let h = stream_header(stream_id, eof, compressed);
    let s = stream_bytes(stream_id, data, eof, compressed);
    let t = wire::be(h, 2);
    wire::lemma_be_len(h, 2);
    wire::lemma_pow256_values();
    wire::lemma_be_roundtrip(h, 2);
    assert(t =~= seq![t[0]] + seq![t[1]]);
    wire::law_most_significant_first(seq![t[0]], seq![t[1]], t[0]);
    wire::law_most_significant_first(seq![t[0]], seq![t[1]], t[1]);
    assert(s[0] == t[0] && s[1] == t[1]);
    assert(s.subrange(2, s.len() as int) =~= data);
}

/// A piece of the stream adds its data behind what has come, and tells the end where it is
/// the last; a piece of another stream, and a message of another type, does nothing.
pub proof fn law_piece_is_absorbed(
    stream_id: u16,
    buffer: Seq<u8>,
    eof: bool,
    messages: Seq<(u16, Seq<u8>)>,
    id: u16,
    data: Seq<u8>,
    last: bool,
    compressed: bool,
    message_type: u16,
)
    requires
        id < 0x4000,
    ensures
        ({
            let before = absorbed(stream_id, buffer, eof, messages);
            let after = absorbed(
                stream_id,
                buffer,
                eof,
                messages.push((message_type, stream_bytes(id, data, last, compressed))),
            );
            &&& (message_type == 0xFF00 && id == stream_id ==> after == (
                before.0 + data,
                before.1 || last,
            ))
            &&& (message_type != 0xFF00 || id != stream_id ==> after == before)
        }),
{
    let m = (message_type, stream_bytes(id, data, last, compressed));
    law_stream_roundtrip(id, data, last, compressed);
    assert(messages.push(m).drop_last() =~= messages);
}

/// A read takes bytes from the front, as many as there are up to the number asked for, and
/// leaves the rest. The stream is closed for a reader only once its end has come and all
/// bytes are read.
pub proof fn law_read_takes_front(
    reader: &mut RawChannelReader,
    max: usize,
    r: Result<Vec<u8>, BufferError>,
)
    requires
        call_ensures(RawChannelReader::read, (reader, max), r),
    ensures
        r is Err <==> old(reader).eof && old(reader).buffer@.len() == 0,
        r matches Err(e) ==> e == BufferError::StreamClosed && *final(reader) == *old(reader),
        r matches Ok(b) ==> b@ + final(reader).buffer@ == old(reader).buffer@ && b@.len() <= max && (
        b@.len() < max ==> final(reader).buffer@.len() == 0) && final(reader).eof == old(
            reader).eof,
{
    if let Ok(b) = r {
        assert(b@ + final(reader).buffer@ =~= reader.buffer@);
    }
}

/// A stream is closed exactly where its end has come and nothing is left to read.
pub proof fn law_closed_at_the_end(reader: &RawChannelReader, r: bool)
    requires
        call_ensures(RawChannelReader::is_closed, (reader,), r),
    ensures
        r <==> (reader.eof && reader.buffer@.len() == 0),
{
}

/// A piece of a stream, with its two bytes and the six of its envelope, fits into a packet.
pub proof fn law_piece_fits(mtu: u16)
    ensures
        mtu >= 8 ==> piece_limit(mtu) + 2 + 6 == mtu,
        mtu < 8 ==> piece_limit(mtu) == 0,
{
}

/// The messages that are no pieces of a stream stay, all and in order.
pub proof fn law_other_messages_stay(messages: Seq<(u16, Seq<u8>)>, m: (u16, Seq<u8>))
    ensures
        m.0 == 0xFF00 ==> other_messages(messages.push(m)) == other_messages(messages),
        m.0 != 0xFF00 ==> other_messages(messages.push(m)) == other_messages(messages).push(m),
{
    assert(messages.push(m).drop_last() =~= messages);
}

/// A writer on a link that is not established writes nothing: what it has to send stays as
/// it was, and the error tells the state of the link.
pub proof fn law_nothing_written_without_link(
    w: &mut RawChannelWriter,
    data: &[u8],
    r: Result<usize, BufferError>,
)
    requires
        call_ensures(RawChannelWriter::write, (w, data), r),
        data@.len() > 0,
        old(w).channel.link.state != LinkState::Established,
        old(w).max_data_len + 8 <= old(w).channel.link.config.mtu,
    ensures
        r == Err::<usize, BufferError>(
            BufferError::Channel(ChannelError::Transport(TransportError::LinkNotEstablished)),
        ),
        final(w).outbound@ == old(w).outbound@,
        final(w).stream_id == old(w).stream_id,
{
}

/// What a writer has to send is handed out once, all and in order.
pub proof fn law_outbound_taken_once(
    w: &mut RawChannelWriter,
    packets: Vec<Packet>,
    v: &mut RawChannelWriter,
    again: Vec<Packet>,
)
    requires
        call_ensures(RawChannelWriter::take_outbound, (w,), packets),
        *old(v) == *final(w),
        call_ensures(RawChannelWriter::take_outbound, (v,), again),
    ensures
        packets@ == old(w).outbound@,
        again@.len() == 0,
        final(v).channel == old(w).channel,
{
}

} // verus!
