//! TCP interfaces: KISS framing over a byte stream.
//!
//! Sockets are opened, read and written elsewhere; this module decides which frames
//! come out of what was read.

use crate::interface::error::InterfaceError;
use crate::interface::kiss;
use crate::interface::kiss::{KissDecoder, KissFrame, KissProgress};
use crate::interface::serial::Polled;
use crate::text;
use crate::wire;
use vstd::prelude::*;

verus! {

/// Hardware MTU of TCP interfaces.
pub const HW_MTU: usize = 262_144;

/// Largest payload that is taken from a stream.
pub const MAX_FRAME_SIZE: usize = 262_208;

/// Nominal bitrate of a connected interface.
pub const TCP_BITRATE: u64 = 1_000_000_000;

/// The payloads of those frames that are not too large, in order.
pub open spec fn accepted(frames: Seq<(u8, Seq<u8>)>) -> Seq<Seq<u8>>
    decreases frames.len(),
{
    if frames.len() == 0 {
        Seq::empty()
    } else if frames.last().1.len() > MAX_FRAME_SIZE {
        accepted(frames.drop_last())
    } else {
        accepted(frames.drop_last()).push(frames.last().1)
    }
}

/// Takes in what was read from a stream, and returns the payloads of the frames that
/// are complete, in order. A frame that is too large is dropped.
pub fn read_chunk(decoder: &mut KissDecoder, chunk: &[u8]) -> (out: Vec<Vec<u8>>)
    ensures
        final(decoder)@ == kiss::advance_all(old(decoder)@, chunk@).0,
        wire::all_bytes(out@) == accepted(kiss::advance_all(old(decoder)@, chunk@).1),
{
    let mut out: Vec<Vec<u8>> = Vec::new();
    let mut i: usize = 0;
    let ghost start = decoder@;
    assert(chunk@.subrange(0, 0) =~= Seq::<u8>::empty());
    assert(wire::all_bytes(out@) =~= Seq::<Seq<u8>>::empty());
    while i < chunk.len()
        invariant
            i <= chunk@.len(),
            decoder@ == kiss::advance_all(start, chunk@.subrange(0, i as int)).0,
            wire::all_bytes(out@) == accepted(kiss::advance_all(start, chunk@.subrange(0, i as int)).1),
        decreases chunk@.len() - i,
    {
        let ghost before = kiss::advance_all(start, chunk@.subrange(0, i as int)).1;
        let ghost old_out = out@;
        assert(chunk@.subrange(0, i + 1).drop_last() =~= chunk@.subrange(0, i as int));
        match decoder.feed(chunk[i]) {
            Some(result) => {
                let data: Vec<u8> = result.data;
                assert(before.push((result.command, data@)).drop_last() =~= before);
                if data.len() > MAX_FRAME_SIZE {
                    decoder.reset();
                } else {
                    out.push(data);
                    assert(wire::all_bytes(out@) =~= wire::all_bytes(old_out).push(data@));
                }
            },
            None => {},
        }
        i = i + 1;
    }
    assert(chunk@.subrange(0, i as int) =~= chunk@);
    out
}

/// A TCP client interface: its configuration and state.
#[derive(Debug, Clone)]
pub struct TcpClientInterface {
    pub name: String,
    pub host: String,
    pub port: u16,
    pub online: bool,
    pub bitrate: u64,
}

/// A TCP server interface: its configuration and state.
#[derive(Debug, Clone)]
pub struct TcpServerInterface {
    pub name: String,
    pub host: String,
    pub port: u16,
    pub online: bool,
    pub bitrate: u64,
}

/// What receiving gives, given whether the interface is online and what the queue of
/// received frames gave.
pub open spec fn polled_frame(online: bool, polled: Polled) -> Result<
    Option<Vec<u8>>,
    InterfaceError,
> {
    if !online {
        Err(InterfaceError::NotOnline)
    } else {
        match polled {
            Polled::Frame(f) => Ok(Some(f)),
            Polled::Empty => Ok(None),
            Polled::Disconnected => Err(InterfaceError::ConnectionLost),
        }
    }
}

fn received(online: bool, polled: Polled) -> (r: Result<Option<Vec<u8>>, InterfaceError>)
    ensures
        r == polled_frame(online, polled),
{
    if !online {
        return Err(InterfaceError::NotOnline);
    }
    match polled {
        Polled::Frame(f) => Ok(Some(f)),
        Polled::Empty => Ok(None),
        Polled::Disconnected => Err(InterfaceError::ConnectionLost),
    }
}

/// The text of an address: host, colon, port.
pub open spec fn address_text(host: Seq<char>, port: u16) -> Seq<char> {
    host + ":"@ + text::decimal(port as nat)
}

fn address_of(host: &str, port: u16) -> (s: String)
    ensures
        s@ == address_text(host@, port),
{
    let mut s: String = text::join(host, ":");
    s.append(text::to_decimal(port as u64).as_str());
    s
}

/// The message of a failed attempt: what was tried, the address, and the reason.
pub open spec fn failure(tried: Seq<char>, address: Seq<char>, reason: Seq<char>) -> Seq<char> {
    tried + address + ": "@ + reason
}

fn failure_text(tried: &str, address: &str, reason: &str) -> (s: String)
    ensures
        s@ == failure(tried@, address@, reason@),
{
    let mut s: String = text::join(tried, address);
    s.append(": ");
    s.append(reason);
    s
}

impl TcpClientInterface {
    /// A client that is not yet connected.
    pub fn new(name: &str, host: &str, port: u16) -> (i: Self)
        ensures
            i.name@ == name@,
            i.host@ == host@,
            i.port == port,
            !i.online,
            i.bitrate == 0,
    {
        TcpClientInterface {
            name: name.to_owned(),
            host: host.to_owned(),
            port,
            online: false,
            bitrate: 0,
        }
    }

    /// The name.
    pub fn name(&self) -> (n: &str)
        ensures
            n@ == self.name@,
    {
        self.name.as_str()
    }

    /// The nominal bitrate; 0 before the first connection.
    pub fn bitrate(&self) -> (n: u64)
        ensures
            n == self.bitrate,
    {
        self.bitrate
    }

    /// Whether the client is connected.
    pub fn is_online(&self) -> (r: bool)
        ensures
            r == self.online,
    {
        self.online
    }

    /// The address to connect to.
    pub fn address(&self) -> (s: String)
        ensures
            s@ == address_text(self.host@, self.port),
    {
        address_of(self.host.as_str(), self.port)
    }

    /// Starts the client, given what connecting gave. A client that is online stays as
    /// it is.
    pub fn start(&mut self, connected: Result<(), String>) -> (r: Result<(), InterfaceError>)
        ensures
            (if old(self).online {
                r == Err::<(), InterfaceError>(InterfaceError::AlreadyOnline) && *final(self)
                    == *old(self)
            } else {
                match connected {
                    Ok(_) => r is Ok && *final(self) == (TcpClientInterface {
                        online: true,
                        bitrate: TCP_BITRATE,
                        ..*old(self)
                    }),
                    Err(e) => *final(self) == *old(self) && (r matches Err(InterfaceError::Io(m))
                        && m@ == failure(
                        "connect "@,
                        address_text(old(self).host@, old(self).port),
                        e@,
                    )),
                }
            }),
    {
        if self.online {
            return Err(InterfaceError::AlreadyOnline);
        }
        match connected {
            Ok(_) => {
                self.online = true;
                self.bitrate = TCP_BITRATE;
                Ok(())
            },
            Err(e) => Err(
                InterfaceError::Io(failure_text("connect ", self.address().as_str(), e.as_str())),
            ),
        }
    }

    /// Stops the client; it must be online.
    pub fn shutdown(&mut self) -> (r: Result<(), InterfaceError>)
        ensures
            *final(self) == (TcpClientInterface { online: false, ..*old(self) }),
            r == (if old(self).online {
                Ok::<(), InterfaceError>(())
            } else {
                Err(InterfaceError::NotOnline)
            }),
    {
        if !self.online {
            return Err(InterfaceError::NotOnline);
        }
        self.online = false;
        Ok(())
    }

    /// What receiving gives, given what the queue of received frames gave.
    pub fn receive(&self, polled: Polled) -> (r: Result<Option<Vec<u8>>, InterfaceError>)
        ensures
            r == polled_frame(self.online, polled),
    {
        received(self.online, polled)
    }

    /// The bytes to write for a payload.
    pub fn send(&self, data: &[u8]) -> (r: Result<Vec<u8>, InterfaceError>)
        ensures
            (match r {
                Ok(frame) => self.online && frame@ == kiss::framed(kiss::CMD_DATA, data@),
                Err(e) => !self.online && e == InterfaceError::NotOnline,
            }),
    {
        if !self.online {
            return Err(InterfaceError::NotOnline);
        }
        Ok(KissFrame::encode(data))
    }
}

impl TcpServerInterface {
    /// A server that is not yet listening.
    pub fn new(name: &str, host: &str, port: u16) -> (i: Self)
        ensures
            i.name@ == name@,
            i.host@ == host@,
            i.port == port,
            !i.online,
            i.bitrate == 0,
    {
        TcpServerInterface {
            name: name.to_owned(),
            host: host.to_owned(),
            port,
            online: false,
            bitrate: 0,
        }
    }

    /// The name.
    pub fn name(&self) -> (n: &str)
        ensures
            n@ == self.name@,
    {
        self.name.as_str()
    }

    /// The nominal bitrate; 0 before the server listens.
    pub fn bitrate(&self) -> (n: u64)
        ensures
            n == self.bitrate,
    {
        self.bitrate
    }

    /// Whether the server is listening.
    pub fn is_online(&self) -> (r: bool)
        ensures
            r == self.online,
    {
        self.online
    }

    /// The address to listen on.
    pub fn address(&self) -> (s: String)
        ensures
            s@ == address_text(self.host@, self.port),
    {
        address_of(self.host.as_str(), self.port)
    }

    /// Starts the server, given what binding its address gave. A server that is online
    /// stays as it is.
    pub fn start(&mut self, bound: Result<(), String>) -> (r: Result<(), InterfaceError>)
        ensures
            (if old(self).online {
                r == Err::<(), InterfaceError>(InterfaceError::AlreadyOnline) && *final(self)
                    == *old(self)
            } else {
                match bound {
                    Ok(_) => r is Ok && *final(self) == (TcpServerInterface {
                        online: true,
                        bitrate: TCP_BITRATE,
                        ..*old(self)
                    }),
                    Err(e) => *final(self) == *old(self) && (r matches Err(InterfaceError::Io(m))
                        && m@ == failure(
                        "bind "@,
                        address_text(old(self).host@, old(self).port),
                        e@,
                    )),
                }
            }),
    {
        if self.online {
            return Err(InterfaceError::AlreadyOnline);
        }
        match bound {
            Ok(_) => {
                self.online = true;
                self.bitrate = TCP_BITRATE;
                Ok(())
            },
            Err(e) => Err(
                InterfaceError::Io(failure_text("bind ", self.address().as_str(), e.as_str())),
            ),
        }
    }

    /// Stops the server; it must be online.
    pub fn shutdown(&mut self) -> (r: Result<(), InterfaceError>)
        ensures
            *final(self) == (TcpServerInterface { online: false, ..*old(self) }),
            r == (if old(self).online {
                Ok::<(), InterfaceError>(())
            } else {
                Err(InterfaceError::NotOnline)
            }),
    {
        if !self.online {
            return Err(InterfaceError::NotOnline);
        }
        self.online = false;
        Ok(())
    }

    /// What receiving gives, given what the queue of received frames gave.
    pub fn receive(&self, polled: Polled) -> (r: Result<Option<Vec<u8>>, InterfaceError>)
        ensures
            r == polled_frame(self.online, polled),
    {
        received(self.online, polled)
    }

    /// The bytes to write to every connected peer for a payload.
    pub fn send(&self, data: &[u8]) -> (r: Result<Vec<u8>, InterfaceError>)
        ensures
            (match r {
                Ok(frame) => self.online && frame@ == kiss::framed(kiss::CMD_DATA, data@),
                Err(e) => !self.online && e == InterfaceError::NotOnline,
            }),
    {
        if !self.online {
            return Err(InterfaceError::NotOnline);
        }
        Ok(KissFrame::encode(data))
    }
}

/// The frames of some payloads, one behind the other, are read as exactly these payloads,
/// in their order, by a decoder that waits for a frame; it then waits for the next one.
/// None of the payloads is too large.
pub proof fn law_every_frame_is_read(s: KissProgress, payloads: Seq<Seq<u8>>)
    requires
        !s.in_frame,
        forall|i: int| 0 <= i < payloads.len() ==> (#[trigger] payloads[i]).len() <= 262_208,
    ensures
        ({
            let chunk = payloads.map_values(
                |p: Seq<u8>| kiss::framed(kiss::CMD_DATA, p),
            ).flatten();
            &&& accepted(kiss::advance_all(s, chunk).1) == payloads
            &&& !kiss::advance_all(s, chunk).0.in_frame
        }),
{
    let f = |p: Seq<u8>| kiss::framed(kiss::CMD_DATA, p);
    lemma_frames_read(s, payloads);
    payloads.map_values(f).lemma_flatten_and_flatten_alt_are_equivalent();
    lemma_all_accepted(Seq::new(payloads.len(), |i: int| (kiss::CMD_DATA, payloads[i])));
    let frames = Seq::new(payloads.len(), |i: int| (kiss::CMD_DATA, payloads[i]));
    assert(Seq::new(frames.len(), |i: int| frames[i].1) =~= payloads);
}

/// A frame whose payload is too large is dropped, and no other: what is read of the frames
/// before it and behind it is the same as without it.
pub proof fn law_large_frame_is_dropped(
    s: KissProgress,
    before: Seq<Seq<u8>>,
    large: Seq<u8>,
    behind: Seq<Seq<u8>>,
)
    requires
        !s.in_frame,
        large.len() > 262_208,
        forall|i: int| 0 <= i < before.len() ==> (#[trigger] before[i]).len() <= 262_208,
        forall|i: int| 0 <= i < behind.len() ==> (#[trigger] behind[i]).len() <= 262_208,
    ensures
        ({
            let chunk = (before.push(large) + behind).map_values(
                |p: Seq<u8>| kiss::framed(kiss::CMD_DATA, p),
            ).flatten();
            accepted(kiss::advance_all(s, chunk).1) == before + behind
        }),
{
    let f = |p: Seq<u8>| kiss::framed(kiss::CMD_DATA, p);
    let payloads = before.push(large) + behind;
    lemma_frames_read(s, payloads);
    payloads.map_values(f).lemma_flatten_and_flatten_alt_are_equivalent();
    let a = Seq::new(before.len(), |i: int| (kiss::CMD_DATA, before[i]));
    let b = Seq::new(behind.len(), |i: int| (kiss::CMD_DATA, behind[i]));
    let frames = Seq::new(payloads.len(), |i: int| (kiss::CMD_DATA, payloads[i]));
    let big = a.push((kiss::CMD_DATA, large));
    assert(frames =~= big + b);
    lemma_accepted_parts(big, b);
    assert(big.drop_last() =~= a);
    lemma_all_accepted(a);
    lemma_all_accepted(b);
    assert(Seq::new(a.len(), |i: int| a[i].1) =~= before);
    assert(Seq::new(b.len(), |i: int| b[i].1) =~= behind);
}

proof fn lemma_frames_read(s: KissProgress, payloads: Seq<Seq<u8>>)
    requires
        !s.in_frame,
    ensures
        ({
            let chunk = payloads.map_values(
                |p: Seq<u8>| kiss::framed(kiss::CMD_DATA, p),
            ).flatten_alt();
            &&& kiss::advance_all(s, chunk).1 == Seq::new(
                payloads.len(),
                |i: int| (kiss::CMD_DATA, payloads[i]),
            )
            &&& !kiss::advance_all(s, chunk).0.in_frame
        }),
    decreases payloads.len(),
{
    let f = |p: Seq<u8>| kiss::framed(kiss::CMD_DATA, p);
    let all = payloads.map_values(f);
    if payloads.len() == 0 {
        assert(all.flatten_alt() =~= Seq::<u8>::empty());
        assert(Seq::new(payloads.len(), |i: int| (kiss::CMD_DATA, payloads[i])) =~= Seq::empty());
    } else {
        let rest = payloads.drop_last();
        lemma_frames_read(s, rest);
        assert(all.drop_last() =~= rest.map_values(f));
        let head = rest.map_values(f).flatten_alt();
        let last = kiss::framed(kiss::CMD_DATA, payloads.last());
        assert(all.flatten_alt() == head + last);
        kiss::lemma_frames_of_parts(s, head, last);
        kiss::law_kiss_roundtrip(kiss::advance_all(s, head).0, kiss::CMD_DATA, payloads.last());
        assert(Seq::new(payloads.len(), |i: int| (kiss::CMD_DATA, payloads[i])) =~= Seq::new(
            rest.len(),
            |i: int| (kiss::CMD_DATA, rest[i]),
        ) + seq![(kiss::CMD_DATA, payloads.last())]);
    }
}

proof fn lemma_all_accepted(frames: Seq<(u8, Seq<u8>)>)
    requires
        forall|i: int| 0 <= i < frames.len() ==> (#[trigger] frames[i]).1.len() <= 262_208,
    ensures
        accepted(frames) == Seq::new(frames.len(), |i: int| frames[i].1),
    decreases frames.len(),
{
    if frames.len() > 0 {
        let rest = frames.drop_last();
        lemma_all_accepted(rest);
        assert(frames.last() == frames[frames.len() - 1]);
        assert(accepted(frames) =~= Seq::new(frames.len(), |i: int| frames[i].1));
    } else {
        assert(accepted(frames) =~= Seq::new(frames.len(), |i: int| frames[i].1));
    }
}

proof fn lemma_accepted_parts(a: Seq<(u8, Seq<u8>)>, b: Seq<(u8, Seq<u8>)>)
    ensures
        accepted(a + b) == accepted(a) + accepted(b),
    decreases b.len(),
{
    if b.len() == 0 {
        assert(a + b =~= a);
        assert(accepted(a) + accepted(b) =~= accepted(a));
    } else {
        lemma_accepted_parts(a, b.drop_last());
        assert((a + b).drop_last() =~= a + b.drop_last());
        assert((a + b).last() == b.last());
        assert(accepted(a + b) =~= accepted(a) + accepted(b));
    }
}

/// What a client or a server that is online writes for a payload is read at the other end
/// as that payload. Offline, nothing is written.
pub proof fn law_sent_is_received(
    c: &TcpClientInterface,
    v: &TcpServerInterface,
    data: &[u8],
    from_client: Result<Vec<u8>, InterfaceError>,
    from_server: Result<Vec<u8>, InterfaceError>,
    s: KissProgress,
)
    requires
        call_ensures(TcpClientInterface::send, (c, data), from_client),
        call_ensures(TcpServerInterface::send, (v, data), from_server),
        data@.len() <= 262_208,
        !s.in_frame,
    ensures
        c.online ==> (from_client matches Ok(frame) && accepted(kiss::advance_all(s, frame@).1)
            == seq![data@]),
        v.online ==> (from_server matches Ok(frame) && accepted(kiss::advance_all(s, frame@).1)
            == seq![data@]),
        !c.online ==> from_client == Err::<Vec<u8>, InterfaceError>(InterfaceError::NotOnline),
        !v.online ==> from_server == Err::<Vec<u8>, InterfaceError>(InterfaceError::NotOnline),
{
    kiss::law_kiss_roundtrip(s, kiss::CMD_DATA, data@);
    lemma_all_accepted(seq![(kiss::CMD_DATA, data@)]);
    let frames = seq![(kiss::CMD_DATA, data@)];
    assert(Seq::new(frames.len(), |i: int| frames[i].1) =~= seq![data@]);
}

/// An interface hands on the frame that is waiting, tells that none is, and tells when the
/// connection is lost; offline, it tells that.
pub proof fn law_frame_is_handed_on(online: bool, polled: Polled)
    ensures
        !online ==> polled_frame(online, polled) == Err::<Option<Vec<u8>>, InterfaceError>(
            InterfaceError::NotOnline,
        ),
        online ==> (polled matches Polled::Frame(f) ==> polled_frame(online, polled) == Ok::<
            Option<Vec<u8>>,
            InterfaceError,
        >(Some(f))),
        online && polled is Empty ==> polled_frame(online, polled) == Ok::<
            Option<Vec<u8>>,
            InterfaceError,
        >(None),
        online && polled is Disconnected ==> polled_frame(online, polled) == Err::<
            Option<Vec<u8>>,
            InterfaceError,
        >(InterfaceError::ConnectionLost),
{
}

/// One read that brings the frames of some payloads hands on each of them, in order, where
/// the decoder waits for a frame and none of them is too large.
pub proof fn law_chunk_of_frames(
    decoder: &mut KissDecoder,
    chunk: &[u8],
    out: Vec<Vec<u8>>,
    payloads: Seq<Seq<u8>>,
)
    requires
        call_ensures(read_chunk, (decoder, chunk), out),
        !old(decoder).in_frame,
        chunk@ == payloads.map_values(|p: Seq<u8>| kiss::framed(kiss::CMD_DATA, p)).flatten(),
        forall|i: int| 0 <= i < payloads.len() ==> (#[trigger] payloads[i]).len() <= 262_208,
    ensures
        out@.len() == payloads.len(),
        forall|i: int| 0 <= i < payloads.len() ==> (#[trigger] out@[i])@ == payloads[i],
        !final(decoder).in_frame,
{
    law_every_frame_is_read(decoder@, payloads);
    assert forall|i: int| 0 <= i < payloads.len() implies (#[trigger] out@[i])@ == payloads[i] by {
        assert(wire::all_bytes(out@)[i] == out@[i]@);
    }
    assert(wire::all_bytes(out@).len() == out@.len());
}

/// A frame that comes in two reads is handed on with the second: what two reads hand on is
/// what one read of both would.
pub proof fn law_chunks_add_up(
    first: &mut KissDecoder,
    second: &mut KissDecoder,
    whole: &mut KissDecoder,
    a: &[u8],
    b: &[u8],
    c: &[u8],
    from_a: Vec<Vec<u8>>,
    from_b: Vec<Vec<u8>>,
    from_c: Vec<Vec<u8>>,
)
    requires
        call_ensures(read_chunk, (first, a), from_a),
        call_ensures(read_chunk, (second, b), from_b),
        call_ensures(read_chunk, (whole, c), from_c),
        old(second)@ == final(first)@,
        old(whole)@ == old(first)@,
        c@ == a@ + b@,
    ensures
        wire::all_bytes(from_c@) == wire::all_bytes(from_a@) + wire::all_bytes(from_b@),
        final(whole)@ == final(second)@,
{
    kiss::lemma_frames_of_parts(first@, a@, b@);
    lemma_accepted_parts(kiss::advance_all(first@, a@).1, kiss::advance_all(second@, b@).1);
}

/// A client and a server go online where their socket opens, and not again while they are;
/// they then have their bitrate. Shut down, they are offline.
pub proof fn law_interfaces_start_and_stop(
    c: &mut TcpClientInterface,
    connected: Result<(), String>,
    r: Result<(), InterfaceError>,
    v: &mut TcpServerInterface,
    bound: Result<(), String>,
    q: Result<(), InterfaceError>,
    d: &mut TcpClientInterface,
    s: Result<(), InterfaceError>,
)
    requires
        call_ensures(TcpClientInterface::start, (c, connected), r),
        call_ensures(TcpServerInterface::start, (v, bound), q),
        call_ensures(TcpClientInterface::shutdown, (d,), s),
    ensures
        r is Ok <==> !old(c).online && connected is Ok,
        r is Ok ==> final(c).online && final(c).bitrate == 1_000_000_000,
        r is Err ==> *final(c) == *old(c),
        q is Ok <==> !old(v).online && bound is Ok,
        q is Ok ==> final(v).online && final(v).bitrate == 1_000_000_000,
        q is Err ==> *final(v) == *old(v),
        !final(d).online && (s is Ok <==> old(d).online),
{
}

} // verus!
