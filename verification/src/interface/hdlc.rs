//! HDLC framing: frames stand between FLAG bytes (0x7E); FLAG and ESC (0x7D) inside a
//! frame are escaped by ESC and a flipped bit.

use crate::wire;
use vstd::prelude::*;

verus! {

/// Frame delimiter.
pub const FLAG: u8 = 0x7E;

/// Escape byte.
pub const ESC: u8 = 0x7D;

/// Mask that is applied to escaped bytes.
pub const ESC_MASK: u8 = 0x20;

/// How one byte is written inside a frame.
pub open spec fn stuffed(b: u8) -> Seq<u8> {
    if b == FLAG || b == ESC {
        seq![ESC, b ^ ESC_MASK]
    } else {
        seq![b]
    }
}

/// How a payload is written inside a frame.
pub open spec fn escaped(data: Seq<u8>) -> Seq<u8>
    decreases data.len(),
{
    if data.len() == 0 {
        Seq::empty()
    } else {
        escaped(data.drop_last()) + stuffed(data.last())
    }
}

/// The frame of a payload.
pub open spec fn framed(data: Seq<u8>) -> Seq<u8> {
    seq![FLAG] + escaped(data) + seq![FLAG]
}

/// Escaping twice over: what stands for an escaped byte, and that it is read back.
pub proof fn lemma_masks()
    ensures
        FLAG ^ ESC_MASK == 0x5E,
        ESC ^ ESC_MASK == 0x5D,
        forall|b: u8| #[trigger] ((b ^ 0x20u8) ^ 0x20u8) == b,
{
    assert(0x7Eu8 ^ 0x20u8 == 0x5E) by (bit_vector);
    assert(0x7Du8 ^ 0x20u8 == 0x5D) by (bit_vector);
    assert(forall|b: u8| #[trigger] ((b ^ 0x20u8) ^ 0x20u8) == b) by (bit_vector);
}

/// Between its two delimiters a frame holds no FLAG.
pub proof fn law_no_flag_inside(data: Seq<u8>)
    ensures
        !escaped(data).contains(FLAG),
    decreases data.len(),
{
    if data.len() > 0 {
        lemma_masks();
        law_no_flag_inside(data.drop_last());
        let a = escaped(data.drop_last());
        let b = stuffed(data.last());
        assert forall|i: int| 0 <= i < escaped(data).len() implies escaped(data)[i] != FLAG by {
            if i < a.len() {
                assert(a[i] == escaped(data)[i]);
            } else {
                assert(b[i - a.len()] == escaped(data)[i]);
            }
        }
    }
}

/// Writes a payload as it stands inside a frame.
pub(crate) fn escape(data: &[u8]) -> (out: Vec<u8>)
    ensures
        out@ == escaped(data@),
{
    let mut out: Vec<u8> = Vec::new();
    let mut i: usize = 0;
    assert(data@.subrange(0, 0) =~= Seq::<u8>::empty());
    while i < data.len()
        invariant
            i <= data@.len(),
            out@ == escaped(data@.subrange(0, i as int)),
        decreases data@.len() - i,
    {
        let b: u8 = data[i];
        let ghost before = out@;
        if b == FLAG || b == ESC {
            out.push(ESC);
            out.push(b ^ ESC_MASK);
        } else {
            out.push(b);
        }
        i = i + 1;
        assert(out@ =~= before + stuffed(b));
        assert(data@.subrange(0, i as int).drop_last() =~= data@.subrange(0, i - 1));
    }
    assert(data@.subrange(0, i as int) =~= data@);
    out
}

/// Writes the frame of a payload.
pub(crate) fn frame(data: &[u8]) -> (out: Vec<u8>)
    ensures
        out@ == framed(data@),
{
    let mut out: Vec<u8> = Vec::new();
    out.push(FLAG);
    let inner: Vec<u8> = escape(data);
    wire::push_all(&mut out, inner.as_slice());
    out.push(FLAG);
    assert(out@ =~= framed(data@));
    out
}

/// HDLC frame encoder.
pub struct HdlcFrame;

impl HdlcFrame {
    /// Escapes a payload: ESC and FLAG become ESC and the byte with a flipped bit.
    pub fn escape(data: &[u8]) -> (out: Vec<u8>)
        ensures
            out@ == escaped(data@),
    {
        escape(data)
    }

    /// Encodes a frame: FLAG, the escaped payload, FLAG.
    pub fn encode(data: &[u8]) -> (out: Vec<u8>)
        ensures
            out@ == framed(data@),
    {
        frame(data)
    }
}

/// The state of a decoder: whether a frame has begun, whether the last byte was ESC,
/// and what has been read of the frame.
#[verifier::ext_equal]
pub struct HdlcProgress {
    pub in_frame: bool,
    pub escape: bool,
    pub data: Seq<u8>,
}

/// What one byte does to a decoder, and the frame that it completes. The FLAG that
/// closes a frame also opens the next one.
pub open spec fn advance(s: HdlcProgress, byte: u8) -> (HdlcProgress, Option<Seq<u8>>) {
    if !s.in_frame {
        if byte == FLAG {
            (HdlcProgress { in_frame: true, escape: false, data: Seq::empty() }, None)
        } else {
            (s, None)
        }
    } else if s.escape {
        (HdlcProgress { in_frame: true, escape: false, data: s.data.push(byte ^ ESC_MASK) }, None)
    } else if byte == ESC {
        (HdlcProgress { escape: true, ..s }, None)
    } else if byte == FLAG {
        (HdlcProgress { data: Seq::empty(), ..s }, Some(s.data))
    } else {
        (HdlcProgress { data: s.data.push(byte), ..s }, None)
    }
}

/// What some bytes do to a decoder, and the frames that they complete.
pub open spec fn advance_all(s: HdlcProgress, bytes: Seq<u8>) -> (HdlcProgress, Seq<Seq<u8>>)
    decreases bytes.len(),
{
    if bytes.len() == 0 {
        (s, Seq::empty())
    } else {
        let (s1, frames) = advance_all(s, bytes.drop_last());
        let (s2, done) = advance(s1, bytes.last());
        (
            s2,
            match done {
                Some(f) => frames.push(f),
                None => frames,
            },
        )
    }
}

proof fn lemma_push(s: HdlcProgress, bytes: Seq<u8>, b: u8)
    ensures
        advance_all(s, bytes.push(b)) == ({
            let (s1, frames) = advance_all(s, bytes);
            let (s2, done) = advance(s1, b);
            (
                s2,
                match done {
                    Some(f) => frames.push(f),
                    None => frames,
                },
            )
        }),
{
    assert(bytes.push(b).drop_last() =~= bytes);
}

/// Escaped bytes inside a frame add up to the payload.
proof fn lemma_inside(s: HdlcProgress, head: Seq<u8>, data: Seq<u8>)
    requires
        advance_all(s, head).0 == (HdlcProgress {
            in_frame: true,
            escape: false,
            data: Seq::empty(),
        }),
    ensures
        advance_all(s, head + escaped(data)) == (
            HdlcProgress { in_frame: true, escape: false, data },
            advance_all(s, head).1,
        ),
    decreases data.len(),
{
    if data.len() == 0 {
        assert(head + escaped(data) =~= head);
        assert(data =~= Seq::empty());
    } else {
        lemma_masks();
        let d = data.drop_last();
        let b = data.last();
        lemma_inside(s, head, d);
        let before = head + escaped(d);
        assert(d.push(b) =~= data);
        if b == FLAG || b == ESC {
            lemma_push(s, before, ESC);
            lemma_push(s, before.push(ESC), b ^ ESC_MASK);
            assert(head + escaped(data) =~= before.push(ESC).push(b ^ ESC_MASK));
        } else {
            lemma_push(s, before, b);
            assert(head + escaped(data) =~= before.push(b));
        }
    }
}

/// A decoder that waits for a frame reads exactly the payload that was encoded.
pub proof fn law_hdlc_roundtrip(s: HdlcProgress, data: Seq<u8>)
    requires
        !s.in_frame,
    ensures
        advance_all(s, framed(data)) == (
            HdlcProgress { in_frame: true, escape: false, data: Seq::empty() },
            seq![data],
        ),
{
    let head = seq![FLAG];
    let empty = Seq::<u8>::empty();
    assert(advance_all(s, empty) == (s, Seq::<Seq<u8>>::empty()));
    lemma_push(s, empty, FLAG);
    assert(empty.push(FLAG) =~= head);
    lemma_inside(s, head, data);
    lemma_push(s, head + escaped(data), FLAG);
    assert(framed(data) =~= (head + escaped(data)).push(FLAG));
    assert(Seq::<Seq<u8>>::empty().push(data) =~= seq![data]);
}

/// Right after a frame, the opening FLAG of the next one closes an empty frame first.
pub proof fn law_hdlc_back_to_back(s: HdlcProgress, data: Seq<u8>)
    requires
        s.in_frame,
        !s.escape,
        s.data.len() == 0,
    ensures
        advance_all(s, framed(data)) == (s, seq![Seq::<u8>::empty(), data]),
{
    let empty = Seq::<u8>::empty();
    let head = seq![FLAG];
    assert(advance_all(s, empty) == (s, Seq::<Seq<u8>>::empty()));
    lemma_push(s, empty, FLAG);
    assert(empty.push(FLAG) =~= head);
    assert(s.data =~= empty);
    lemma_inside(s, head, data);
    lemma_push(s, head + escaped(data), FLAG);
    assert(framed(data) =~= (head + escaped(data)).push(FLAG));
    assert(Seq::<Seq<u8>>::empty().push(empty).push(data) =~= seq![empty, data]);
    assert(s =~= HdlcProgress { in_frame: true, escape: false, data: empty });
}

/// What the call with byte `i` of a stream returns, where the bytes before it have been
/// fed one by one.
pub open spec fn answer(s: HdlcProgress, stream: Seq<u8>, i: int) -> Option<Seq<u8>> {
    advance(advance_all(s, stream.subrange(0, i)).0, stream[i]).1
}

/// Bytes that complete no frame are answered by nothing.
proof fn lemma_silent(s: HdlcProgress, bytes: Seq<u8>)
    requires
        advance_all(s, bytes).1.len() == 0,
    ensures
        forall|i: int| 0 <= i < bytes.len() ==> #[trigger] answer(s, bytes, i) is None,
    decreases bytes.len(),
{
    if bytes.len() > 0 {
        let rest = bytes.drop_last();
        lemma_silent(s, rest);
        assert forall|i: int| 0 <= i < bytes.len() implies #[trigger] answer(s, bytes, i) is None by {
            if i < rest.len() {
                assert(rest.subrange(0, i) =~= bytes.subrange(0, i));
                assert(answer(s, rest, i) is None);
            } else {
                assert(bytes.subrange(0, i) =~= rest);
            }
        }
    }
}

/// Bytes without a FLAG do nothing to a decoder that waits for a frame.
proof fn lemma_noise(s: HdlcProgress, noise: Seq<u8>)
    requires
        !s.in_frame,
        !noise.contains(FLAG),
    ensures
        advance_all(s, noise) == (s, Seq::<Seq<u8>>::empty()),
    decreases noise.len(),
{
    if noise.len() > 0 {
        let rest = noise.drop_last();
        assert forall|i: int| 0 <= i < rest.len() implies rest[i] != FLAG by {
            assert(noise[i] == rest[i]);
        }
        lemma_noise(s, rest);
        assert(noise[noise.len() - 1] != FLAG);
    }
}

/// A frame is fed byte by byte, behind bytes without a FLAG, to a decoder that waits for
/// one: the call with the last byte returns the payload, and every other call nothing.
pub proof fn law_hdlc_after_noise(s: HdlcProgress, noise: Seq<u8>, data: Seq<u8>)
    requires
        !s.in_frame,
        !noise.contains(FLAG),
    ensures
        forall|i: int|
            0 <= i < noise.len() + framed(data).len() ==> #[trigger] answer(
                s,
                noise + framed(data),
                i,
            ) == (if i == noise.len() + framed(data).len() - 1 {
                Some(data)
            } else {
                None
            }),
{
    let stream = noise + framed(data);
    let head = noise.push(FLAG);
    lemma_noise(s, noise);
    lemma_push(s, noise, FLAG);
    lemma_inside(s, head, data);
    let inside = head + escaped(data);
    assert(stream =~= inside.push(FLAG));
    lemma_silent(s, inside);
    assert forall|i: int| 0 <= i < stream.len() implies #[trigger] answer(s, stream, i) == (if i
        == stream.len() - 1 {
        Some(data)
    } else {
        None
    }) by {
        if i < inside.len() {
            assert(inside.subrange(0, i) =~= stream.subrange(0, i));
            assert(answer(s, inside, i) is None);
        } else {
            assert(stream.subrange(0, i) =~= inside);
        }
    }
}

/// HDLC frame decoder, fed one byte at a time.
#[derive(Debug, Clone)]
pub struct HdlcDecoder {
    /// Whether the opening FLAG has been seen.
    pub in_frame: bool,
    /// Whether the previous byte was ESC.
    pub escape: bool,
    /// What has been read of the current frame.
    pub data_buffer: Vec<u8>,
}

impl View for HdlcDecoder {
    type V = HdlcProgress;

    open spec fn view(&self) -> HdlcProgress {
        HdlcProgress { in_frame: self.in_frame, escape: self.escape, data: self.data_buffer@ }
    }
}

impl HdlcDecoder {
    /// A decoder that waits for a frame.
    pub fn new() -> (d: Self)
        ensures
            d@ == (HdlcProgress { in_frame: false, escape: false, data: Seq::empty() }),
    {
        HdlcDecoder { in_frame: false, escape: false, data_buffer: Vec::new() }
    }

    /// Returns to the initial state; a partial frame is dropped.
    pub fn reset(&mut self)
        ensures
            final(self)@ == (HdlcProgress { in_frame: false, escape: false, data: Seq::empty() }),
    {
        self.in_frame = false;
        self.escape = false;
        self.data_buffer.clear();
    }

    /// Takes in one byte, and returns the frame that it completes.
    pub fn feed(&mut self, byte: u8) -> (r: Option<Vec<u8>>)
        ensures
            final(self)@ == advance(old(self)@, byte).0,
            wire::bytes_view(r) == advance(old(self)@, byte).1,
    {
        if !self.in_frame {
            if byte == FLAG {
                self.in_frame = true;
                self.escape = false;
                self.data_buffer.clear();
            }
            return None;
        }
        if self.escape {
            self.escape = false;
            self.data_buffer.push(byte ^ ESC_MASK);
            return None;
        }
        if byte == ESC {
            self.escape = true;
            return None;
        }
        if byte == FLAG {
            let mut result: Vec<u8> = Vec::new();
            result.append(&mut self.data_buffer);
            assert(result@ =~= old(self).data_buffer@);
            return Some(result);
        }
        self.data_buffer.push(byte);
        None
    }
}

impl Default for HdlcDecoder {
    fn default() -> (d: Self)
        ensures
            d@ == (HdlcProgress { in_frame: false, escape: false, data: Seq::empty() }),
    {
        HdlcDecoder::new()
    }
}

/// On the wire a frame begins and ends with 0x7E. In between the payload stands byte for
/// byte, but that 0x7E is written as 0x7D 0x5E, and 0x7D as 0x7D 0x5D.
pub proof fn law_bytes_on_the_wire(a: Seq<u8>, b: u8)
    ensures
        framed(a) == seq![0x7Eu8] + escaped(a) + seq![0x7Eu8],
        escaped(Seq::empty()) == Seq::<u8>::empty(),
        escaped(a.push(b)) == escaped(a) + (if b == 0x7E {
            seq![0x7Du8, 0x5Eu8]
        } else if b == 0x7D {
            seq![0x7Du8, 0x5Du8]
        } else {
            seq![b]
        }),
{
    lemma_masks();
    assert(a.push(b).drop_last() =~= a);
}

} // verus!
