//! Serial interfaces: HDLC framing over a serial port.
//!
//! The port itself is opened, read and written elsewhere; this module encodes and
//! decodes frames and decides what the read loop does next.

use crate::interface::error::InterfaceError;
use crate::interface::hdlc;
use crate::wire;
use crate::text;
use vstd::prelude::*;

verus! {

/// Maximum frame size on the wire.
pub const HW_MTU: usize = 564;

/// HDLC delimiter.
pub const FLAG: u8 = 0x7E;

/// HDLC escape byte.
pub const ESC: u8 = 0x7D;

/// Mask that is applied to escaped bytes.
pub const ESC_MASK: u8 = 0x20;

/// Milliseconds without a byte after which a partial frame is dropped.
pub const FRAME_TIMEOUT_MS: u64 = 100;

/// Seconds between two attempts to open the port.
pub const RECONNECT_DELAY_SECS: u64 = 5;

/// Encodes a payload: FLAG, the escaped payload, FLAG.
pub fn hdlc_encode(data: &[u8]) -> (out: Vec<u8>)
    ensures
        out@ == hdlc::framed(data@),
{
    hdlc::frame(data)
}

/// What escaped bytes stand for. An ESC at the very end stands for itself.
pub open spec fn unescaped(s: Seq<u8>) -> Seq<u8>
    decreases s.len(),
{
    if s.len() == 0 {
        Seq::empty()
    } else if s[0] == ESC && s.len() > 1 {
        seq![s[1] ^ ESC_MASK] + unescaped(s.subrange(2, s.len() as int))
    } else {
        seq![s[0]] + unescaped(s.subrange(1, s.len() as int))
    }
}

/// The payload of a frame: what stands inside, without a FLAG at either end.
pub open spec fn unframed(frame: Seq<u8>) -> Option<Seq<u8>> {
    if frame.len() < 2 {
        None
    } else {
        let start = if frame[0] == FLAG {
            1int
        } else {
            0int
        };
        let end = if frame.last() == FLAG {
            frame.len() - 1
        } else {
            frame.len() as int
        };
        Some(unescaped(frame.subrange(start, end)))
    }
}

proof fn lemma_unescape_prefix(data: Seq<u8>, rest: Seq<u8>)
    ensures
        unescaped(hdlc::escaped(data) + rest) == data + unescaped(rest),
    decreases data.len(),
{
    if data.len() == 0 {
        assert(hdlc::escaped(data) + rest =~= rest);
        assert(data + unescaped(rest) =~= unescaped(rest));
    } else {
        hdlc::lemma_masks();
        let d = data.drop_last();
        let b = data.last();
        let tail = hdlc::stuffed(b) + rest;
        assert(hdlc::escaped(data) + rest =~= hdlc::escaped(d) + tail);
        lemma_unescape_prefix(d, tail);
        if b == FLAG || b == ESC {
            assert(tail.subrange(2, tail.len() as int) =~= rest);
        } else {
            assert(tail.subrange(1, tail.len() as int) =~= rest);
        }
        assert(unescaped(tail) =~= seq![b] + unescaped(rest));
        assert(d + (seq![b] + unescaped(rest)) =~= data + unescaped(rest));
    }
}

/// Decoding a frame gives back the payload that was encoded.
pub proof fn law_frame_roundtrip(data: Seq<u8>)
    ensures
        unframed(hdlc::framed(data)) == Some(data),
{
    let f = hdlc::framed(data);
    let inner = f.subrange(1, f.len() - 1);
    let empty = Seq::<u8>::empty();
    assert(inner =~= hdlc::escaped(data) + empty);
    lemma_unescape_prefix(data, empty);
    assert(data + unescaped(empty) =~= data);
}

/// Decodes a frame: strips a FLAG at either end and undoes the escapes. Fewer than two
/// bytes are no frame; an empty payload is one.
pub fn hdlc_decode(frame: &[u8]) -> (r: Option<Vec<u8>>)
    ensures
        wire::bytes_view(r) == unframed(frame@),
{
    if frame.len() < 2 {
        return None;
    }
    let start: usize = if frame[0] == FLAG {
        1
    } else {
        0
    };
    let end: usize = if frame[frame.len() - 1] == FLAG {
        frame.len() - 1
    } else {
        frame.len()
    };
    let inner: &[u8] = vstd::slice::slice_subrange(frame, start, end);
    let mut out: Vec<u8> = Vec::new();
    let mut i: usize = 0;
    assert(inner@.subrange(0, inner@.len() as int) =~= inner@);
    assert(out@ + unescaped(inner@) =~= unescaped(inner@));
    while i < inner.len()
        invariant
            i <= inner.len(),
            out@ + unescaped(inner@.subrange(i as int, inner@.len() as int)) == unescaped(inner@),
        decreases inner.len() - i,
    {
        let ghost rest = inner@.subrange(i as int, inner@.len() as int);
        let ghost before = out@;
        if inner[i] == ESC && i + 1 < inner.len() {
            out.push(inner[i + 1] ^ ESC_MASK);
            i = i + 2;
            assert(rest.subrange(2, rest.len() as int) =~= inner@.subrange(
                i as int,
                inner@.len() as int,
            ));
        } else {
            out.push(inner[i]);
            i = i + 1;
            assert(rest.subrange(1, rest.len() as int) =~= inner@.subrange(
                i as int,
                inner@.len() as int,
            ));
        }
        assert(out@ + unescaped(inner@.subrange(i as int, inner@.len() as int)) =~= before
            + unescaped(rest));
    }
    assert(inner@.subrange(i as int, inner@.len() as int) =~= Seq::<u8>::empty());
    assert(out@ =~= unescaped(inner@));
    Some(out)
}

/// Where a decoder stands.
#[derive(Debug, Clone, Copy, PartialEq, Eq, Structural)]
pub enum HdlcState {
    /// Before the FLAG that opens a frame.
    WaitFlag,
    /// Inside a frame.
    InFrame,
    /// Behind an ESC inside a frame.
    Escape,
}

/// What one byte does to a decoder, and the frame that it completes. Empty frames are
/// dropped, and every frame has an opening FLAG of its own.
pub open spec fn advance(state: HdlcState, buf: Seq<u8>, byte: u8) -> (
    HdlcState,
    Seq<u8>,
    Option<Seq<u8>>,
) {
    match state {
        HdlcState::WaitFlag => if byte == FLAG {
            (HdlcState::InFrame, Seq::empty(), None)
        } else {
            (state, buf, None)
        },
        HdlcState::InFrame => if byte == FLAG {
            (
                HdlcState::WaitFlag,
                Seq::empty(),
                if buf.len() == 0 {
                    None
                } else {
                    Some(buf)
                },
            )
        } else if byte == ESC {
            (HdlcState::Escape, buf, None)
        } else {
            (state, buf.push(byte), None)
        },
        HdlcState::Escape => (HdlcState::InFrame, buf.push(byte ^ ESC_MASK), None),
    }
}

/// What some bytes do to a decoder, and the frames that they complete.
pub open spec fn advance_all(state: HdlcState, buf: Seq<u8>, bytes: Seq<u8>) -> (
    HdlcState,
    Seq<u8>,
    Seq<Seq<u8>>,
)
    decreases bytes.len(),
{
    if bytes.len() == 0 {
        (state, buf, Seq::empty())
    } else {
        let (s1, b1, frames) = advance_all(state, buf, bytes.drop_last());
        let (s2, b2, done) = advance(s1, b1, bytes.last());
        (
            s2,
            b2,
            match done {
                Some(f) => frames.push(f),
                None => frames,
            },
        )
    }
}

proof fn lemma_push(state: HdlcState, buf: Seq<u8>, bytes: Seq<u8>, b: u8)
    ensures
        advance_all(state, buf, bytes.push(b)) == ({
            let (s1, b1, frames) = advance_all(state, buf, bytes);
            let (s2, b2, done) = advance(s1, b1, b);
            (
                s2,
                b2,
                match done {
                    Some(f) => frames.push(f),
                    None => frames,
                },
            )
        }),
{
    assert(bytes.push(b).drop_last() =~= bytes);
}

proof fn lemma_inside_after(state: HdlcState, buf: Seq<u8>, front: Seq<u8>, data: Seq<u8>)
    requires
        state == HdlcState::WaitFlag,
        advance_all(state, buf, front) == (state, buf, Seq::<Seq<u8>>::empty()),
    ensures
        advance_all(state, buf, front + (seq![FLAG] + hdlc::escaped(data))) == (
            HdlcState::InFrame,
            data,
            Seq::<Seq<u8>>::empty(),
        ),
    decreases data.len(),
{
    let head = seq![FLAG];
    if data.len() == 0 {
        lemma_push(state, buf, front, FLAG);
        assert(front.push(FLAG) =~= front + (head + hdlc::escaped(data)));
        assert(data =~= Seq::<u8>::empty());
    } else {
        hdlc::lemma_masks();
        let d = data.drop_last();
        let b = data.last();
        lemma_inside_after(state, buf, front, d);
        let before = front + (head + hdlc::escaped(d));
        let after = front + (head + hdlc::escaped(data));
        assert(d.push(b) =~= data);
        if b == FLAG || b == ESC {
            lemma_push(state, buf, before, ESC);
            lemma_push(state, buf, before.push(ESC), b ^ ESC_MASK);
            assert(after =~= before.push(ESC).push(b ^ ESC_MASK));
        } else {
            lemma_push(state, buf, before, b);
            assert(after =~= before.push(b));
        }
    }
}

/// A decoder that waits for a frame reads the payload that was encoded, unless it is
/// empty, and waits again.
pub proof fn law_serial_roundtrip(buf: Seq<u8>, data: Seq<u8>)
    ensures
        advance_all(HdlcState::WaitFlag, buf, hdlc::framed(data)) == (
            HdlcState::WaitFlag,
            Seq::<u8>::empty(),
            if data.len() == 0 {
                Seq::<Seq<u8>>::empty()
            } else {
                seq![data]
            },
        ),
{
    let empty = Seq::<u8>::empty();
    assert(advance_all(HdlcState::WaitFlag, buf, empty) == (
        HdlcState::WaitFlag,
        buf,
        Seq::<Seq<u8>>::empty(),
    ));
    lemma_inside_after(HdlcState::WaitFlag, buf, empty, data);
    let before = seq![FLAG] + hdlc::escaped(data);
    assert(empty + before =~= before);
    lemma_push(HdlcState::WaitFlag, buf, before, FLAG);
    assert(hdlc::framed(data) =~= before.push(FLAG));
    assert(Seq::<Seq<u8>>::empty().push(data) =~= seq![data]);
}

/// What the call with byte `i` of a stream returns, where the bytes before it have been
/// fed one by one.
pub open spec fn answer(state: HdlcState, buf: Seq<u8>, stream: Seq<u8>, i: int) -> Option<Seq<u8>> {
    let (s, b, _) = advance_all(state, buf, stream.subrange(0, i));
    advance(s, b, stream[i]).2
}

/// Bytes that complete no frame are answered by nothing.
proof fn lemma_silent(state: HdlcState, buf: Seq<u8>, bytes: Seq<u8>)
    requires
        advance_all(state, buf, bytes).2.len() == 0,
    ensures
        forall|i: int| 0 <= i < bytes.len() ==> #[trigger] answer(state, buf, bytes, i) is None,
    decreases bytes.len(),
{
    if bytes.len() > 0 {
        let rest = bytes.drop_last();
        lemma_silent(state, buf, rest);
        assert forall|i: int| 0 <= i < bytes.len() implies #[trigger] answer(state, buf, bytes, i) is None by {
            if i < rest.len() {
                assert(rest.subrange(0, i) =~= bytes.subrange(0, i));
                assert(answer(state, buf, rest, i) is None);
            } else {
                assert(bytes.subrange(0, i) =~= rest);
            }
        }
    }
}

/// Bytes without a FLAG do nothing to a decoder that waits for a frame.
proof fn lemma_noise(state: HdlcState, buf: Seq<u8>, noise: Seq<u8>)
    requires
        state == HdlcState::WaitFlag,
        !noise.contains(FLAG),
    ensures
        advance_all(state, buf, noise) == (state, buf, Seq::<Seq<u8>>::empty()),
    decreases noise.len(),
{
    if noise.len() > 0 {
        let rest = noise.drop_last();
        assert forall|i: int| 0 <= i < rest.len() implies rest[i] != FLAG by {
            assert(noise[i] == rest[i]);
        }
        lemma_noise(state, buf, rest);
        assert(noise[noise.len() - 1] != FLAG);
    }
}

/// A frame is fed byte by byte, behind bytes without a FLAG, to a decoder that waits for
/// one: the call with the last byte returns the payload, unless it is empty, and every other
/// call nothing.
pub proof fn law_serial_after_noise(state: HdlcState, buf: Seq<u8>, noise: Seq<u8>, data: Seq<u8>)
    requires
        state == HdlcState::WaitFlag,
        !noise.contains(FLAG),
    ensures
        forall|i: int|
            0 <= i < noise.len() + hdlc::framed(data).len() ==> #[trigger] answer(
                state,
                buf,
                noise + hdlc::framed(data),
                i,
            ) == (if i == noise.len() + hdlc::framed(data).len() - 1 && data.len() > 0 {
                Some(data)
            } else {
                None
            }),
{
    let stream = noise + hdlc::framed(data);
    lemma_noise(state, buf, noise);
    lemma_inside_after(state, buf, noise, data);
    let inside = noise + (seq![FLAG] + hdlc::escaped(data));
    assert(stream =~= inside.push(FLAG));
    lemma_silent(state, buf, inside);
    assert forall|i: int| 0 <= i < stream.len() implies #[trigger] answer(state, buf, stream, i) == (if i
        == stream.len() - 1 && data.len() > 0 {
        Some(data)
    } else {
        None
    }) by {
        if i < inside.len() {
            assert(inside.subrange(0, i) =~= stream.subrange(0, i));
            assert(answer(state, buf, inside, i) is None);
        } else {
            assert(stream.subrange(0, i) =~= inside);
        }
    }
}

/// HDLC frame decoder for a serial line, fed one byte at a time.
#[derive(Debug, Clone)]
pub struct HdlcDecoder {
    pub buf: Vec<u8>,
    pub state: HdlcState,
}

impl Default for HdlcDecoder {
    fn default() -> (d: Self)
        ensures
            d.state == HdlcState::WaitFlag,
            d.buf@ == Seq::<u8>::empty(),
    {
        HdlcDecoder::new()
    }
}

impl HdlcDecoder {
    /// A decoder that waits for a frame.
    pub fn new() -> (d: Self)
        ensures
            d.state == HdlcState::WaitFlag,
            d.buf@ == Seq::<u8>::empty(),
    {
        HdlcDecoder { buf: Vec::new(), state: HdlcState::WaitFlag }
    }

    /// Takes in one byte, and returns the non-empty frame that it completes.
    pub fn feed(&mut self, byte: u8) -> (r: Option<Vec<u8>>)
        ensures
            (final(self).state, final(self).buf@, wire::bytes_view(r)) == advance(
                old(self).state,
                old(self).buf@,
                byte,
            ),
    {
        match self.state {
            HdlcState::WaitFlag => {
                if byte == FLAG {
                    self.state = HdlcState::InFrame;
                    self.buf.clear();
                }
                None
            },
            HdlcState::InFrame => {
                if byte == FLAG {
                    self.state = HdlcState::WaitFlag;
                    if self.buf.len() == 0 {
                        assert(self.buf@ =~= Seq::<u8>::empty());
                        None
                    } else {
                        let mut frame: Vec<u8> = Vec::new();
                        frame.append(&mut self.buf);
                        assert(frame@ =~= old(self).buf@);
                        Some(frame)
                    }
                } else if byte == ESC {
                    self.state = HdlcState::Escape;
                    None
                } else {
                    self.buf.push(byte);
                    None
                }
            },
            HdlcState::Escape => {
                self.buf.push(byte ^ ESC_MASK);
                self.state = HdlcState::InFrame;
                None
            },
        }
    }

    /// Returns to the initial state; a partial frame is dropped.
    pub fn reset(&mut self)
        ensures
            final(self).state == HdlcState::WaitFlag,
            final(self).buf@ == Seq::<u8>::empty(),
    {
        self.state = HdlcState::WaitFlag;
        self.buf.clear();
    }
}

// --- The read loop ---

/// What happened at the port or around it.
#[derive(Debug, Clone, Copy, PartialEq, Eq, Structural)]
pub enum ReadEvent {
    /// The interface is being shut down.
    Shutdown,
    /// The port was opened.
    Opened,
    /// The port could not be opened.
    OpenFailed,
    /// A byte was read.
    Byte(u8),
    /// No byte came within [`FRAME_TIMEOUT_MS`].
    TimedOut,
    /// Reading failed otherwise.
    ReadFailed,
    /// A frame was handed over.
    Delivered,
    /// Nobody takes frames any more.
    ReceiverGone,
}

/// What the read loop does next.
#[derive(Debug, Clone, PartialEq, Eq)]
pub enum ReadAction {
    /// Open the port.
    Open,
    /// Wait that many seconds, then open the port.
    OpenAfter(u64),
    /// Read a byte.
    Read,
    /// Hand over a frame.
    Deliver(Vec<u8>),
    /// Close the port and end.
    Stop,
}

/// The read loop of a serial interface: a decoder, and whether the port is open.
#[derive(Debug, Clone)]
pub struct ReadLoop {
    pub decoder: HdlcDecoder,
    pub connected: bool,
}

impl ReadLoop {
    /// A loop at an open port.
    pub fn new() -> (l: Self)
        ensures
            l.connected,
            l.decoder.state == HdlcState::WaitFlag,
            l.decoder.buf@ == Seq::<u8>::empty(),
    {
        ReadLoop { decoder: HdlcDecoder::new(), connected: true }
    }

    /// What an event leads to.
    pub open spec fn stepped(
        before: ReadLoop,
        after: ReadLoop,
        event: ReadEvent,
        action: ReadAction,
    ) -> bool {
        &&& after.connected == (match event {
            ReadEvent::Opened => true,
            ReadEvent::Shutdown | ReadEvent::OpenFailed | ReadEvent::ReadFailed
            | ReadEvent::ReceiverGone => false,
            _ => before.connected,
        })
        &&& (match event {
            ReadEvent::Byte(b) => {
                let (state, buf, done) = advance(before.decoder.state, before.decoder.buf@, b);
                &&& after.decoder.state == state
                &&& after.decoder.buf@ == buf
                &&& (match done {
                    Some(f) => action matches ReadAction::Deliver(frame) && frame@ == f,
                    None => action == ReadAction::Read,
                })
            },
            ReadEvent::TimedOut => {
                &&& after.decoder.state == HdlcState::WaitFlag
                &&& after.decoder.buf@ == Seq::<u8>::empty()
                &&& action == ReadAction::Read
            },
            _ => after.decoder == before.decoder && action == (match event {
                ReadEvent::Opened | ReadEvent::Delivered => ReadAction::Read,
                ReadEvent::OpenFailed => ReadAction::OpenAfter(RECONNECT_DELAY_SECS),
                ReadEvent::ReadFailed => ReadAction::Open,
                _ => ReadAction::Stop,
            }),
        })
    }

    /// Takes in an event and decides what to do next.
    ///
    /// A byte goes through the decoder, and a completed frame is handed over. A timeout
    /// drops a partial frame. A read error closes the port, which is then opened again,
    /// with a pause after each failure. A shutdown or a lost receiver ends the loop.
    pub fn step(&mut self, event: ReadEvent) -> (action: ReadAction)
        ensures
            Self::stepped(*old(self), *final(self), event, action),
    {
        match event {
            ReadEvent::Shutdown => {
                self.connected = false;
                ReadAction::Stop
            },
            ReadEvent::Opened => {
                self.connected = true;
                ReadAction::Read
            },
            ReadEvent::OpenFailed => {
                self.connected = false;
                ReadAction::OpenAfter(RECONNECT_DELAY_SECS)
            },
            ReadEvent::Byte(b) => {
                match self.decoder.feed(b) {
                    Some(frame) => ReadAction::Deliver(frame),
                    None => ReadAction::Read,
                }
            },
            ReadEvent::TimedOut => {
                self.decoder.reset();
                ReadAction::Read
            },
            ReadEvent::ReadFailed => {
                self.connected = false;
                ReadAction::Open
            },
            ReadEvent::Delivered => ReadAction::Read,
            ReadEvent::ReceiverGone => {
                self.connected = false;
                ReadAction::Stop
            },
        }
    }
}

// --- The interface ---

/// What a look into the queue of received frames gave.
#[derive(Debug, Clone, PartialEq, Eq)]
pub enum Polled {
    Frame(Vec<u8>),
    Empty,
    Disconnected,
}

/// A serial interface: its configuration and its counters.
#[derive(Debug, Clone)]
pub struct SerialInterface {
    pub name: String,
    pub port: String,
    pub speed: u32,
    pub online: bool,
    pub bitrate: u64,
    /// Payload bytes received since the interface was started.
    pub rxb: u64,
    /// Payload bytes sent since the interface was started.
    pub txb: u64,
}

/// `a + b`, at most the largest 64-bit number.
pub open spec fn saturating_sum(a: u64, b: nat) -> u64 {
    if a + b > u64::MAX {
        u64::MAX
    } else {
        (a + b) as u64
    }
}

impl SerialInterface {
    /// An interface that is not yet online.
    pub fn new(name: &str, port: &str, speed: u32) -> (i: Self)
        ensures
            i.name@ == name@,
            i.port@ == port@,
            i.speed == speed,
            !i.online,
            i.bitrate == speed,
            i.rxb == 0,
            i.txb == 0,
    {
        SerialInterface {
            name: name.to_owned(),
            port: port.to_owned(),
            speed,
            online: false,
            bitrate: speed as u64,
            rxb: 0,
            txb: 0,
        }
    }

    /// Payload bytes received since the interface was started.
    pub fn rxb(&self) -> (n: u64)
        ensures
            n == self.rxb,
    {
        self.rxb
    }

    /// Payload bytes sent since the interface was started.
    pub fn txb(&self) -> (n: u64)
        ensures
            n == self.txb,
    {
        self.txb
    }

    /// The name.
    pub fn name(&self) -> (n: &str)
        ensures
            n@ == self.name@,
    {
        self.name.as_str()
    }

    /// The speed of the port in bits per second.
    pub fn bitrate(&self) -> (n: u64)
        ensures
            n == self.bitrate,
    {
        self.bitrate
    }

    /// Whether the interface is online.
    pub fn is_online(&self) -> (r: bool)
        ensures
            r == self.online,
    {
        self.online
    }

    /// Starts the interface, given what opening the port gave. An interface that is
    /// online stays as it is; one that is started has its counters at zero.
    pub fn start(&mut self, opened: Result<(), String>) -> (r: Result<(), InterfaceError>)
        ensures
            (if old(self).online {
                r == Err::<(), InterfaceError>(InterfaceError::AlreadyOnline) && *final(self)
                    == *old(self)
            } else {
                match opened {
                    Ok(_) => r is Ok && *final(self) == (SerialInterface {
                        online: true,
                        rxb: 0,
                        txb: 0,
                        ..*old(self)
                    }),
                    Err(e) => *final(self) == *old(self) && (r matches Err(
                        InterfaceError::Serial(m),
                    ) && m@ == "failed to open "@ + old(self).port@ + ": "@ + e@),
                }
            }),
    {
        if self.online {
            return Err(InterfaceError::AlreadyOnline);
        }
        match opened {
            Ok(_) => {
                self.online = true;
                self.rxb = 0;
                self.txb = 0;
                Ok(())
            },
            Err(e) => {
                let mut m: String = text::join("failed to open ", self.port.as_str());
                m.append(": ");
                m.append(e.as_str());
                Err(InterfaceError::Serial(m))
            },
        }
    }

    /// Stops the interface; it must be online.
    pub fn shutdown(&mut self) -> (r: Result<(), InterfaceError>)
        ensures
            *final(self) == (SerialInterface { online: false, ..*old(self) }),
            r == (if old(self).online {
                Ok::<(), InterfaceError>(())
            } else {
                Err(InterfaceError::NotOnline)
            }),
    {
        if !self.online {
            return Err(InterfaceError::NotOnline);
        }
        self.online = false;
        Ok(())
    }

    /// What receiving returns, given what the queue gave. A frame is counted.
    pub fn receive(&mut self, polled: Polled) -> (r: Result<Option<Vec<u8>>, InterfaceError>)
        ensures
            r == (if !old(self).online {
                Err::<Option<Vec<u8>>, InterfaceError>(InterfaceError::NotOnline)
            } else {
                match polled {
                    Polled::Frame(f) => Ok(Some(f)),
                    Polled::Empty => Ok(None),
                    Polled::Disconnected => Err(InterfaceError::ConnectionLost),
                }
            }),
            *final(self) == (SerialInterface {
                rxb: if old(self).online && polled is Frame {
                    saturating_sum(old(self).rxb, polled->Frame_0@.len())
                } else {
                    old(self).rxb
                },
                ..*old(self)
            }),
    {
        if !self.online {
            return Err(InterfaceError::NotOnline);
        }
        match polled {
            Polled::Frame(f) => {
                self.rxb = self.rxb.saturating_add(f.len() as u64);
                Ok(Some(f))
            },
            Polled::Empty => Ok(None),
            Polled::Disconnected => Err(InterfaceError::ConnectionLost),
        }
    }

    /// The bytes to write for a payload.
    pub fn send(&self, data: &[u8]) -> (r: Result<Vec<u8>, InterfaceError>)
        ensures
            (match r {
                Ok(frame) => self.online && frame@ == hdlc::framed(data@),
                Err(e) => !self.online && e == InterfaceError::NotOnline,
            }),
    {
        if !self.online {
            return Err(InterfaceError::NotOnline);
        }
        Ok(hdlc_encode(data))
    }

    /// Counts a payload of `n` bytes that was written.
    pub fn sent(&mut self, n: usize)
        ensures
            *final(self) == (SerialInterface {
                txb: saturating_sum(old(self).txb, n as nat),
                ..*old(self)
            }),
    {
        self.txb = self.txb.saturating_add(n as u64);
    }
}

/// The bytes of a frame, read one by one by a loop that waits for a frame, have it hand
/// over exactly the payload, with the last byte; with every other byte it reads on. An
/// empty payload is not handed over.
pub proof fn law_frame_is_handed_over(
    loops: Seq<ReadLoop>,
    actions: Seq<ReadAction>,
    data: Seq<u8>,
)
    requires
        loops.len() == hdlc::framed(data).len() + 1,
        actions.len() == hdlc::framed(data).len(),
        loops[0].decoder.state == HdlcState::WaitFlag,
        data.len() > 0,
        forall|i: int|
            0 <= i < actions.len() ==> #[trigger] ReadLoop::stepped(
                loops[i],
                loops[i + 1],
                ReadEvent::Byte(hdlc::framed(data)[i]),
                actions[i],
            ),
    ensures
        actions.last() matches ReadAction::Deliver(frame) && frame@ == data,
        forall|i: int| 0 <= i < actions.len() - 1 ==> #[trigger] actions[i] == ReadAction::Read,
        loops.last().decoder.state == HdlcState::WaitFlag,
        loops.last().connected == loops[0].connected,
{
    let stream = hdlc::framed(data);
    let n = stream.len() as int;
    lemma_loop_follows(loops, actions, stream, n);
    let empty = Seq::<u8>::empty();
    law_serial_after_noise(HdlcState::WaitFlag, loops[0].decoder.buf@, empty, data);
    law_serial_roundtrip(loops[0].decoder.buf@, data);
    assert(empty + stream =~= stream);
    assert(stream.subrange(0, n) =~= stream);
    assert forall|i: int| 0 <= i < n implies (match answer(
        HdlcState::WaitFlag,
        loops[0].decoder.buf@,
        stream,
        i,
    ) {
        Some(f) => #[trigger] actions[i] matches ReadAction::Deliver(frame) && frame@ == f,
        None => actions[i] == ReadAction::Read,
    }) by {
        lemma_loop_follows(loops, actions, stream, i);
        assert(ReadLoop::stepped(loops[i], loops[i + 1], ReadEvent::Byte(stream[i]), actions[i]));
    }
    assert forall|i: int| 0 <= i < actions.len() - 1 implies #[trigger] actions[i]
        == ReadAction::Read by {
        assert(answer(HdlcState::WaitFlag, loops[0].decoder.buf@, stream, i) is None);
    }
    assert(answer(HdlcState::WaitFlag, loops[0].decoder.buf@, stream, n - 1) == Some(data));
    assert(actions[n - 1] == actions.last());
}

proof fn lemma_loop_follows(
    loops: Seq<ReadLoop>,
    actions: Seq<ReadAction>,
    stream: Seq<u8>,
    n: int,
)
    requires
        0 <= n <= stream.len(),
        loops.len() == stream.len() + 1,
        actions.len() == stream.len(),
        forall|i: int|
            0 <= i < actions.len() ==> #[trigger] ReadLoop::stepped(
                loops[i],
                loops[i + 1],
                ReadEvent::Byte(stream[i]),
                actions[i],
            ),
    ensures
        ({
            let (state, buf, _) = advance_all(
                loops[0].decoder.state,
                loops[0].decoder.buf@,
                stream.subrange(0, n),
            );
            loops[n].decoder.state == state && loops[n].decoder.buf@ == buf
        }),
        loops[n].connected == loops[0].connected,
    decreases n,
{
    if n == 0 {
        assert(stream.subrange(0, 0) =~= Seq::<u8>::empty());
    } else {
        lemma_loop_follows(loops, actions, stream, n - 1);
        assert(stream.subrange(0, n).drop_last() =~= stream.subrange(0, n - 1));
        assert(ReadLoop::stepped(
            loops[n - 1],
            loops[n - 1 + 1],
            ReadEvent::Byte(stream[n - 1]),
            actions[n - 1],
        ));
    }
}

/// A pause within a frame drops what was read of it: the next frame is read afresh.
pub proof fn law_pause_drops_partial_frame(before: ReadLoop, after: ReadLoop, action: ReadAction)
    requires
        ReadLoop::stepped(before, after, ReadEvent::TimedOut, action),
    ensures
        after.decoder.state == HdlcState::WaitFlag,
        after.decoder.buf@.len() == 0,
        after.connected == before.connected,
        action == ReadAction::Read,
{
}

/// A port that fails is opened again: at once after a failed read, and five seconds after
/// an attempt that failed; once it is open, it is read. A shutdown and a lost receiver end
/// the loop. The port counts as open exactly between an opening and what ends it.
pub proof fn law_port_is_reopened(
    before: ReadLoop,
    after: ReadLoop,
    event: ReadEvent,
    action: ReadAction,
)
    requires
        ReadLoop::stepped(before, after, event, action),
    ensures
        event == ReadEvent::ReadFailed ==> action == ReadAction::Open && !after.connected,
        event == ReadEvent::OpenFailed ==> action == ReadAction::OpenAfter(5) && !after.connected,
        event == ReadEvent::Opened ==> action == ReadAction::Read && after.connected,
        event == ReadEvent::Delivered ==> action == ReadAction::Read && after.connected
            == before.connected,
        event == ReadEvent::Shutdown ==> action == ReadAction::Stop && !after.connected,
        event == ReadEvent::ReceiverGone ==> action == ReadAction::Stop && !after.connected,
{
}

/// What an interface that is online writes for a payload is read at the other end as that
/// payload, both byte by byte and as a whole frame. Offline, nothing is written.
pub proof fn law_sent_is_received(
    i: &SerialInterface,
    data: &[u8],
    r: Result<Vec<u8>, InterfaceError>,
    buf: Seq<u8>,
)
    requires
        call_ensures(SerialInterface::send, (i, data), r),
    ensures
        i.online ==> (r matches Ok(frame) && unframed(frame@) == Some(data@) && (data@.len() > 0
            ==> advance_all(HdlcState::WaitFlag, buf, frame@).2 == seq![data@])),
        !i.online ==> r == Err::<Vec<u8>, InterfaceError>(InterfaceError::NotOnline),
{
    law_frame_roundtrip(data@);
    law_serial_roundtrip(buf, data@);
}

/// An interface starts where its port opens, with its counters at zero, and not again while
/// it is online; where the port does not open it stays as it is.
pub proof fn law_interface_starts(
    i: &mut SerialInterface,
    opened: Result<(), String>,
    r: Result<(), InterfaceError>,
)
    requires
        call_ensures(SerialInterface::start, (i, opened), r),
    ensures
        r is Ok <==> !old(i).online && opened is Ok,
        r is Ok ==> final(i).online && final(i).rxb == 0 && final(i).txb == 0,
        r is Err ==> *final(i) == *old(i),
        final(i).port == old(i).port && final(i).speed == old(i).speed,
{
}

/// A frame that waits is handed on, and its bytes are counted; offline, nothing is.
pub proof fn law_frames_are_counted(
    i: &mut SerialInterface,
    f: Vec<u8>,
    r: Result<Option<Vec<u8>>, InterfaceError>,
    j: &mut SerialInterface,
    n: usize,
)
    requires
        call_ensures(SerialInterface::receive, (i, Polled::Frame(f)), r),
        call_ensures(SerialInterface::sent, (j, n), ()),
    ensures
        old(i).online ==> r == Ok::<Option<Vec<u8>>, InterfaceError>(Some(f)) && (old(i).rxb
            + f@.len() <= u64::MAX ==> final(i).rxb == old(i).rxb + f@.len()),
        !old(i).online ==> r == Err::<Option<Vec<u8>>, InterfaceError>(InterfaceError::NotOnline)
            && *final(i) == *old(i),
        old(j).txb + n <= u64::MAX ==> final(j).txb == old(j).txb + n,
        final(i).txb == old(i).txb && final(j).rxb == old(j).rxb,
{
}

/// An interface that is shut down is offline; only one that was online reports success.
pub proof fn law_interface_stops(i: &mut SerialInterface, r: Result<(), InterfaceError>)
    requires
        call_ensures(SerialInterface::shutdown, (i,), r),
    ensures
        !final(i).online,
        r is Ok <==> old(i).online,
{
}

} // verus!
