//! KISS framing: frames stand between FEND bytes (0xC0), begin with a command byte, and
//! hold FEND and FESC (0xDB) in a two-byte form.

use crate::wire;
use vstd::prelude::*;

verus! {

/// Frame end.
pub const FEND: u8 = 0xC0;

/// Frame escape.
pub const FESC: u8 = 0xDB;

/// Transposed frame end.
pub const TFEND: u8 = 0xDC;

/// Transposed frame escape.
pub const TFESC: u8 = 0xDD;

/// Data frame.
pub const CMD_DATA: u8 = 0x00;

/// Set the TX delay, in units of 10 ms.
pub const CMD_TXDELAY: u8 = 0x01;

/// Set the persistence.
pub const CMD_P: u8 = 0x02;

/// Set the slot time, in units of 10 ms.
pub const CMD_SLOTTIME: u8 = 0x03;

/// Set the TX tail, in units of 10 ms.
pub const CMD_TXTAIL: u8 = 0x04;

/// Set full duplex.
pub const CMD_FULLDUPLEX: u8 = 0x05;

/// Set hardware.
pub const CMD_SETHARDWARE: u8 = 0x06;

/// The modem is ready.
pub const CMD_READY: u8 = 0x0F;

/// Unknown command.
pub const CMD_UNKNOWN: u8 = 0xFE;

/// Return code.
pub const CMD_RETURN: u8 = 0xFF;

/// A decoded frame: a command and its payload.
#[derive(Debug, Clone, PartialEq, Eq)]
pub struct KissFrameResult {
    pub command: u8,
    pub data: Vec<u8>,
}

impl View for KissFrameResult {
    type V = (u8, Seq<u8>);

    open spec fn view(&self) -> (u8, Seq<u8>) {
        (self.command, self.data@)
    }
}

/// How one byte is written inside a frame.
pub open spec fn stuffed(b: u8) -> Seq<u8> {
    if b == FESC {
        seq![FESC, TFESC]
    } else if b == FEND {
        seq![FESC, TFEND]
    } else {
        seq![b]
    }
}

/// How a payload is written inside a frame.
pub open spec fn escaped(data: Seq<u8>) -> Seq<u8>
    decreases data.len(),
{
    if data.len() == 0 {
        Seq::empty()
    } else {
        escaped(data.drop_last()) + stuffed(data.last())
    }
}

/// The frame of a command and its payload. The command byte is not escaped.
pub open spec fn framed(cmd: u8, data: Seq<u8>) -> Seq<u8> {
    seq![FEND, cmd] + escaped(data) + seq![FEND]
}

/// A payload is written without FEND.
pub proof fn law_no_fend_inside(data: Seq<u8>)
    ensures
        !escaped(data).contains(FEND),
    decreases data.len(),
{
    if data.len() > 0 {
        law_no_fend_inside(data.drop_last());
        let a = escaped(data.drop_last());
        let b = stuffed(data.last());
        assert forall|i: int| 0 <= i < escaped(data).len() implies escaped(data)[i] != FEND by {
            if i < a.len() {
                assert(a[i] == escaped(data)[i]);
            } else {
                assert(b[i - a.len()] == escaped(data)[i]);
            }
        }
    }
}

/// KISS frame encoder.
pub struct KissFrame;

impl KissFrame {
    /// Writes a payload as it stands inside a frame.
    fn escape(data: &[u8]) -> (out: Vec<u8>)
        ensures
            out@ == escaped(data@),
    {
        let mut out: Vec<u8> = Vec::new();
        let mut i: usize = 0;
        assert(data@.subrange(0, 0) =~= Seq::<u8>::empty());
        while i < data.len()
            invariant
                i <= data@.len(),
                out@ == escaped(data@.subrange(0, i as int)),
            decreases data@.len() - i,
        {
            let b: u8 = data[i];
            let ghost before = out@;
            if b == FESC {
                out.push(FESC);
                out.push(TFESC);
            } else if b == FEND {
                out.push(FESC);
                out.push(TFEND);
            } else {
                out.push(b);
            }
            i = i + 1;
            assert(out@ =~= before + stuffed(b));
            assert(data@.subrange(0, i as int).drop_last() =~= data@.subrange(0, i - 1));
        }
        assert(data@.subrange(0, i as int) =~= data@);
        out
    }

    /// Encodes a data frame.
    pub fn encode(data: &[u8]) -> (out: Vec<u8>)
        ensures
            out@ == framed(CMD_DATA, data@),
    {
        KissFrame::encode_cmd(CMD_DATA, data)
    }

    /// Encodes a command frame: FEND, the command, the escaped payload, FEND.
    pub fn encode_cmd(cmd: u8, data: &[u8]) -> (out: Vec<u8>)
        ensures
            out@ == framed(cmd, data@),
    {
        let mut out: Vec<u8> = Vec::new();
        out.push(FEND);
        out.push(cmd);
        let inner: Vec<u8> = KissFrame::escape(data);
        wire::push_all(&mut out, inner.as_slice());
        out.push(FEND);
        assert(out@ =~= framed(cmd, data@));
        out
    }

    /// Encodes a command frame with a single-byte payload.
    pub fn encode_cmd_value(cmd: u8, value: u8) -> (out: Vec<u8>)
        ensures
            out@ == framed(cmd, seq![value]),
    {
        let payload: [u8; 1] = [value];
        assert(payload@ =~= seq![value]);
        KissFrame::encode_cmd(cmd, payload.as_slice())
    }
}

/// The state of a decoder: whether a frame has begun, whether the last byte was FESC,
/// the command if it has been read, and what has been read of the payload.
#[verifier::ext_equal]
pub struct KissProgress {
    pub in_frame: bool,
    pub escape: bool,
    pub data: Seq<u8>,
    pub command: Option<u8>,
}

/// The state of a decoder that waits for a frame.
pub open spec fn waiting() -> KissProgress {
    KissProgress { in_frame: false, escape: false, data: Seq::empty(), command: None }
}

/// What one byte does to a decoder, and the frame that it completes. The first plain
/// byte of a frame is its command; a frame without one is a data frame. An unknown
/// escape keeps the byte.
pub open spec fn advance(s: KissProgress, byte: u8) -> (KissProgress, Option<(u8, Seq<u8>)>) {
    if !s.in_frame {
        if byte == FEND {
            (KissProgress { in_frame: true, ..waiting() }, None)
        } else {
            (s, None)
        }
    } else if s.escape {
        let b = if byte == TFESC {
            FESC
        } else if byte == TFEND {
            FEND
        } else {
            byte
        };
        (KissProgress { escape: false, data: s.data.push(b), ..s }, None)
    } else if byte == FESC {
        (KissProgress { escape: true, ..s }, None)
    } else if byte == FEND {
        let command = match s.command {
            Some(c) => c,
            None => CMD_DATA,
        };
        (waiting(), Some((command, s.data)))
    } else if s.command is None {
        (KissProgress { command: Some(byte), ..s }, None)
    } else {
        (KissProgress { data: s.data.push(byte), ..s }, None)
    }
}

/// What some bytes do to a decoder, and the frames that they complete.
pub open spec fn advance_all(s: KissProgress, bytes: Seq<u8>) -> (KissProgress, Seq<(u8, Seq<u8>)>)
    decreases bytes.len(),
{
    if bytes.len() == 0 {
        (s, Seq::empty())
    } else {
        let (s1, frames) = advance_all(s, bytes.drop_last());
        let (s2, done) = advance(s1, bytes.last());
        (
            s2,
            match done {
                Some(f) => frames.push(f),
                None => frames,
            },
        )
    }
}

proof fn lemma_push(s: KissProgress, bytes: Seq<u8>, b: u8)
    ensures
        advance_all(s, bytes.push(b)) == ({
            let (s1, frames) = advance_all(s, bytes);
            let (s2, done) = advance(s1, b);
            (
                s2,
                match done {
                    Some(f) => frames.push(f),
                    None => frames,
                },
            )
        }),
{
    assert(bytes.push(b).drop_last() =~= bytes);
}

proof fn lemma_inside(s: KissProgress, head: Seq<u8>, cmd: u8, data: Seq<u8>)
    requires
        advance_all(s, head) == (
            KissProgress {
                in_frame: true,
                escape: false,
                data: Seq::empty(),
                command: Some(cmd),
            },
            Seq::<(u8, Seq<u8>)>::empty(),
        ),
    ensures
        advance_all(s, head + escaped(data)) == (
            KissProgress { in_frame: true, escape: false, data, command: Some(cmd) },
            Seq::<(u8, Seq<u8>)>::empty(),
        ),
    decreases data.len(),
{
    if data.len() == 0 {
        assert(head + escaped(data) =~= head);
        assert(data =~= Seq::empty());
    } else {
        let d = data.drop_last();
        let b = data.last();
        lemma_inside(s, head, cmd, d);
        let before = head + escaped(d);
        assert(d.push(b) =~= data);
        if b == FESC {
            lemma_push(s, before, FESC);
            lemma_push(s, before.push(FESC), TFESC);
            assert(head + escaped(data) =~= before.push(FESC).push(TFESC));
        } else if b == FEND {
            lemma_push(s, before, FESC);
            lemma_push(s, before.push(FESC), TFEND);
            assert(head + escaped(data) =~= before.push(FESC).push(TFEND));
        } else {
            lemma_push(s, before, b);
            assert(head + escaped(data) =~= before.push(b));
        }
    }
}

/// A decoder that waits for a frame reads exactly the command and the payload that
/// were encoded, and waits again. The command is any byte but FEND and FESC.
pub proof fn law_kiss_roundtrip(s: KissProgress, cmd: u8, data: Seq<u8>)
    requires
        !s.in_frame,
        cmd != FEND,
        cmd != FESC,
    ensures
        advance_all(s, framed(cmd, data)) == (waiting(), seq![(cmd, data)]),
{
    let empty = Seq::<u8>::empty();
    let head = seq![FEND, cmd];
    assert(advance_all(s, empty) == (s, Seq::<(u8, Seq<u8>)>::empty()));
    lemma_push(s, empty, FEND);
    lemma_push(s, empty.push(FEND), cmd);
    assert(empty.push(FEND).push(cmd) =~= head);
    lemma_inside(s, head, cmd, data);
    lemma_push(s, head + escaped(data), FEND);
    assert(framed(cmd, data) =~= (head + escaped(data)).push(FEND));
    assert(Seq::<(u8, Seq<u8>)>::empty().push((cmd, data)) =~= seq![(cmd, data)]);
}

/// What the call with byte `i` of a stream returns, where the bytes before it have been
/// fed one by one.
pub open spec fn answer(s: KissProgress, stream: Seq<u8>, i: int) -> Option<(u8, Seq<u8>)> {
    advance(advance_all(s, stream.subrange(0, i)).0, stream[i]).1
}

/// Bytes that complete no frame are answered by nothing.
proof fn lemma_silent(s: KissProgress, bytes: Seq<u8>)
    requires
        advance_all(s, bytes).1.len() == 0,
    ensures
        forall|i: int| 0 <= i < bytes.len() ==> #[trigger] answer(s, bytes, i) is None,
    decreases bytes.len(),
{
    if bytes.len() > 0 {
        let rest = bytes.drop_last();
        lemma_silent(s, rest);
        assert forall|i: int| 0 <= i < bytes.len() implies #[trigger] answer(s, bytes, i) is None by {
            if i < rest.len() {
                assert(rest.subrange(0, i) =~= bytes.subrange(0, i));
                assert(answer(s, rest, i) is None);
            } else {
                assert(bytes.subrange(0, i) =~= rest);
            }
        }
    }
}

/// Bytes without a FEND do nothing to a decoder that waits for a frame.
proof fn lemma_noise(s: KissProgress, noise: Seq<u8>)
    requires
        !s.in_frame,
        !noise.contains(FEND),
    ensures
        advance_all(s, noise) == (s, Seq::<(u8, Seq<u8>)>::empty()),
    decreases noise.len(),
{
    if noise.len() > 0 {
        let rest = noise.drop_last();
        assert forall|i: int| 0 <= i < rest.len() implies rest[i] != FEND by {
            assert(noise[i] == rest[i]);
        }
        lemma_noise(s, rest);
        assert(noise[noise.len() - 1] != FEND);
    }
}

/// The answers to a stream in two parts are those to the first, and those to the second
/// from where the first left the decoder.
proof fn lemma_parts(s: KissProgress, a: Seq<u8>, b: Seq<u8>)
    ensures
        advance_all(s, a + b).0 == advance_all(advance_all(s, a).0, b).0,
        forall|i: int| 0 <= i < a.len() ==> #[trigger] answer(s, a + b, i) == answer(s, a, i),
        forall|i: int|
            a.len() <= i < a.len() + b.len() ==> #[trigger] answer(s, a + b, i) == answer(
                advance_all(s, a).0,
                b,
                i - a.len(),
            ),
    decreases b.len(),
{
    assert forall|i: int| 0 <= i < a.len() implies #[trigger] answer(s, a + b, i) == answer(s, a, i) by {
        assert((a + b).subrange(0, i) =~= a.subrange(0, i));
    }
    if b.len() == 0 {
        assert(a + b =~= a);
    } else {
        let c = b.drop_last();
        lemma_parts(s, a, c);
        assert((a + b).drop_last() =~= a + c);
        assert forall|i: int| a.len() <= i < a.len() + b.len() implies #[trigger] answer(s, a + b, i)
            == answer(advance_all(s, a).0, b, i - a.len()) by {
            let j = i - a.len();
            if j < c.len() {
                assert((a + b).subrange(0, i) =~= (a + c).subrange(0, i));
                assert(b.subrange(0, j) =~= c.subrange(0, j));
                assert(answer(s, a + c, i) == answer(advance_all(s, a).0, c, j));
            } else {
                assert((a + b).subrange(0, i) =~= a + c);
                assert(b.subrange(0, j) =~= c);
            }
        }
    }
}

/// The frames of a stream in two parts are those of the first, and then those of the second
/// from where the first left the decoder.
pub proof fn lemma_frames_of_parts(s: KissProgress, a: Seq<u8>, b: Seq<u8>)
    ensures
        advance_all(s, a + b).0 == advance_all(advance_all(s, a).0, b).0,
        advance_all(s, a + b).1 == advance_all(s, a).1 + advance_all(advance_all(s, a).0, b).1,
    decreases b.len(),
{
    if b.len() == 0 {
        assert(a + b =~= a);
        assert(advance_all(s, a).1 + Seq::<(u8, Seq<u8>)>::empty() =~= advance_all(s, a).1);
    } else {
        let c = b.drop_last();
        lemma_frames_of_parts(s, a, c);
        assert((a + b).drop_last() =~= a + c);
        assert((a + b).last() == b.last());
        let first = advance_all(s, a);
        let (s1, frames) = advance_all(first.0, c);
        match advance(s1, b.last()).1 {
            Some(f) => {
                assert(first.1 + frames.push(f) =~= (first.1 + frames).push(f));
            },
            None => {},
        }
    }
}

/// A frame is fed byte by byte, behind bytes without a FEND, to a decoder that waits for
/// one: the call with the last byte returns command and payload, and every other call
/// nothing.
pub proof fn law_kiss_after_noise(s: KissProgress, noise: Seq<u8>, cmd: u8, data: Seq<u8>)
    requires
        !s.in_frame,
        !noise.contains(FEND),
        cmd != FEND,
        cmd != FESC,
    ensures
        advance_all(s, noise + framed(cmd, data)).0 == waiting(),
        forall|i: int|
            0 <= i < noise.len() + framed(cmd, data).len() ==> #[trigger] answer(
                s,
                noise + framed(cmd, data),
                i,
            ) == (if i == noise.len() + framed(cmd, data).len() - 1 {
                Some((cmd, data))
            } else {
                None
            }),
{
    let stream = noise + framed(cmd, data);
    let head = noise.push(FEND).push(cmd);
    lemma_noise(s, noise);
    lemma_push(s, noise, FEND);
    lemma_push(s, noise.push(FEND), cmd);
    lemma_inside(s, head, cmd, data);
    let inside = head + escaped(data);
    lemma_push(s, inside, FEND);
    assert(stream =~= inside.push(FEND));
    lemma_silent(s, inside);
    assert forall|i: int| 0 <= i < stream.len() implies #[trigger] answer(s, stream, i) == (if i
        == stream.len() - 1 {
        Some((cmd, data))
    } else {
        None
    }) by {
        if i < inside.len() {
            assert(inside.subrange(0, i) =~= stream.subrange(0, i));
            assert(answer(s, inside, i) is None);
        } else {
            assert(stream.subrange(0, i) =~= inside);
        }
    }
}

/// Two frames are fed byte by byte, one behind the other and behind bytes without a FEND,
/// to a decoder that waits for a frame: the call with the last byte of each frame returns
/// its command and its payload, and every other call nothing.
pub proof fn law_kiss_two_frames(
    s: KissProgress,
    noise: Seq<u8>,
    cmd1: u8,
    data1: Seq<u8>,
    cmd2: u8,
    data2: Seq<u8>,
)
    requires
        !s.in_frame,
        !noise.contains(FEND),
        cmd1 != FEND,
        cmd1 != FESC,
        cmd2 != FEND,
        cmd2 != FESC,
    ensures
        ({
            let first = noise.len() + framed(cmd1, data1).len();
            let both = first + framed(cmd2, data2).len();
            let stream = noise + framed(cmd1, data1) + framed(cmd2, data2);
            forall|i: int|
                0 <= i < both ==> #[trigger] answer(s, stream, i) == (if i == first - 1 {
                    Some((cmd1, data1))
                } else if i == both - 1 {
                    Some((cmd2, data2))
                } else {
                    None
                })
        }),
{
    let a = noise + framed(cmd1, data1);
    let b = framed(cmd2, data2);
    let empty = Seq::<u8>::empty();
    law_kiss_after_noise(s, noise, cmd1, data1);
    law_kiss_after_noise(waiting(), empty, cmd2, data2);
    assert(empty + b =~= b);
    lemma_parts(s, a, b);
    assert forall|i: int| 0 <= i < a.len() + b.len() implies #[trigger] answer(s, a + b, i) == (
    if i == a.len() - 1 {
        Some((cmd1, data1))
    } else if i == a.len() + b.len() - 1 {
        Some((cmd2, data2))
    } else {
        None
    }) by {
        if i < a.len() {
            assert(answer(s, a + b, i) == answer(s, a, i));
        } else {
            assert(answer(s, a + b, i) == answer(waiting(), b, i - a.len()));
        }
    }
}

/// KISS frame decoder, fed one byte at a time.
#[derive(Debug, Clone)]
pub struct KissDecoder {
    /// Whether the opening FEND has been seen.
    pub in_frame: bool,
    /// Whether the previous byte was FESC.
    pub escape: bool,
    /// What has been read of the payload.
    pub data_buffer: Vec<u8>,
    /// The command of the current frame.
    pub command: Option<u8>,
}

impl View for KissDecoder {
    type V = KissProgress;

    open spec fn view(&self) -> KissProgress {
        KissProgress {
            in_frame: self.in_frame,
            escape: self.escape,
            data: self.data_buffer@,
            command: self.command,
        }
    }
}

/// The frame that was completed, if one was.
pub open spec fn result_view(r: Option<KissFrameResult>) -> Option<(u8, Seq<u8>)> {
    match r {
        Some(f) => Some(f@),
        None => None,
    }
}

impl KissDecoder {
    /// A decoder that waits for a frame.
    pub fn new() -> (d: Self)
        ensures
            d@ == waiting(),
    {
        KissDecoder { in_frame: false, escape: false, data_buffer: Vec::new(), command: None }
    }

    /// Returns to the initial state; a partial frame is dropped.
    pub fn reset(&mut self)
        ensures
            final(self)@ == waiting(),
    {
        self.in_frame = false;
        self.escape = false;
        self.data_buffer.clear();
        self.command = None;
    }

    /// Takes in one byte, and returns the frame that it completes.
    pub fn feed(&mut self, byte: u8) -> (r: Option<KissFrameResult>)
        ensures
            final(self)@ == advance(old(self)@, byte).0,
            result_view(r) == advance(old(self)@, byte).1,
    {
        if !self.in_frame {
            if byte == FEND {
                self.in_frame = true;
                self.escape = false;
                self.data_buffer.clear();
                self.command = None;
            }
            return None;
        }
        if self.escape {
            self.escape = false;
            if byte == TFESC {
                self.data_buffer.push(FESC);
            } else if byte == TFEND {
                self.data_buffer.push(FEND);
            } else {
                self.data_buffer.push(byte);
            }
            return None;
        }
        if byte == FESC {
            self.escape = true;
            return None;
        }
        if byte == FEND {
            self.in_frame = false;
            let mut data: Vec<u8> = Vec::new();
            data.append(&mut self.data_buffer);
            assert(data@ =~= old(self).data_buffer@);
            let command: u8 = match self.command {
                Some(c) => c,
                None => CMD_DATA,
            };
            self.command = None;
            return Some(KissFrameResult { command, data });
        }
        if self.command.is_none() {
            self.command = Some(byte);
        } else {
            self.data_buffer.push(byte);
        }
        None
    }
}

impl Default for KissDecoder {
    fn default() -> (d: Self)
        ensures
            d@ == waiting(),
    {
        KissDecoder::new()
    }
}

/// On the wire a frame begins and ends with 0xC0, and its first byte is the command. Then
/// the payload stands byte for byte, but that 0xC0 is written as 0xDB 0xDC, and 0xDB as
/// 0xDB 0xDD.
pub proof fn law_bytes_on_the_wire(cmd: u8, a: Seq<u8>, b: u8)
    ensures
        framed(cmd, a) == seq![0xC0u8, cmd] + escaped(a) + seq![0xC0u8],
        escaped(Seq::empty()) == Seq::<u8>::empty(),
        escaped(a.push(b)) == escaped(a) + (if b == 0xC0 {
            seq![0xDBu8, 0xDCu8]
        } else if b == 0xDB {
            seq![0xDBu8, 0xDDu8]
        } else {
            seq![b]
        }),
{
    assert(a.push(b).drop_last() =~= a);
}

} // verus!
