//! Channel envelopes.
//!
//! ```text
//! [message_type: 2 bytes BE] [sequence_number: 4 bytes BE] [payload: ..]
//! ```

use crate::text;
use crate::wire;
use vstd::prelude::*;

verus! {

/// Message types that the channel layer reserves.
#[allow(non_camel_case_types)]
#[derive(Debug, Clone, Copy, PartialEq, Eq, Structural)]
pub enum SystemMessageType {
    /// Plain channel data.
    SMT_CHANNEL_DATA,
    /// Stream data.
    SMT_STREAM_DATA,
}

impl SystemMessageType {
    /// The number of the type on the wire.
    pub open spec fn number(&self) -> u16 {
        match self {
            SystemMessageType::SMT_CHANNEL_DATA => 0x0000,
            SystemMessageType::SMT_STREAM_DATA => 0xFF00,
        }
    }

    /// The number of the type on the wire.
    pub fn code(&self) -> (n: u16)
        ensures
            n == self.number(),
    {
        match self {
            SystemMessageType::SMT_CHANNEL_DATA => 0x0000,
            SystemMessageType::SMT_STREAM_DATA => 0xFF00,
        }
    }
}

/// Types that can be sent over a channel.
pub trait MessageBase {
    /// Packs the message into bytes.
    fn pack(&self) -> Vec<u8>;

    /// Unpacks a message from bytes.
    fn unpack(data: &[u8]) -> Result<Self, String> where Self: Sized;

    /// The message type.
    fn msgtype(&self) -> u16;
}

/// What can be wrong with an envelope.
#[derive(Debug, Clone, Copy, PartialEq, Eq, Structural)]
pub enum EnvelopeError {
    /// It has fewer bytes than its header takes.
    TooShort(usize),
}

impl EnvelopeError {
    /// The text of the error.
    pub open spec fn message(&self) -> Seq<char> {
        match *self {
            EnvelopeError::TooShort(n) => "envelope too short: "@ + text::decimal(n as nat)
                + " bytes, need at least 6"@,
        }
    }

    /// The message that describes the error.
    pub fn to_string(&self) -> (out: String)
        ensures
            out@ == self.message(),
    {
        match self {
            EnvelopeError::TooShort(n) => {
                let mut out: String = text::join(
                    "envelope too short: ",
                    text::to_decimal(*n as u64).as_str(),
                );
                out.append(" bytes, need at least 6");
                out
            },
        }
    }
}

/// A message with its type and sequence number.
#[derive(Debug, Clone)]
pub struct ChannelEnvelope {
    pub message_type: u16,
    pub sequence_number: u32,
    pub payload: Vec<u8>,
}

/// The bytes of an envelope.
pub open spec fn envelope_bytes(message_type: u16, sequence_number: u32, payload: Seq<u8>) -> Seq<u8> {
    wire::be(message_type as nat, 2) + wire::be(sequence_number as nat, 4) + payload
}

/// The envelope that a byte string holds: type, sequence number and payload.
pub open spec fn parsed_envelope(b: Seq<u8>) -> Option<(u16, u32, Seq<u8>)> {
    if b.len() < 6 {
        None
    } else {
        Some(
            (
                wire::be_value(b.subrange(0, 2)) as u16,
                wire::be_value(b.subrange(2, 6)) as u32,
                b.subrange(6, b.len() as int),
            ),
        )
    }
}

/// An envelope is read back from its bytes.
pub proof fn law_envelope_roundtrip(message_type: u16, sequence_number: u32, payload: Seq<u8>)
    ensures
        parsed_envelope(envelope_bytes(message_type, sequence_number, payload)) == Some(
            (message_type, sequence_number, payload),
        ),
        envelope_bytes(message_type, sequence_number, payload).len() == 6 + payload.len(),
{
    let b = envelope_bytes(message_type, sequence_number, payload);
    wire::lemma_pow256_values();
    wire::lemma_be_roundtrip(message_type as nat, 2);
    wire::lemma_be_roundtrip(sequence_number as nat, 4);
    assert(b.subrange(0, 2) =~= wire::be(message_type as nat, 2));
    assert(b.subrange(2, 6) =~= wire::be(sequence_number as nat, 4));
    assert(b.subrange(6, b.len() as int) =~= payload);
}

impl ChannelEnvelope {
    /// Packs the envelope.
    pub fn pack(&self) -> (buf: Vec<u8>)
        ensures
            buf@ == envelope_bytes(self.message_type, self.sequence_number, self.payload@),
    {
        let mut buf: Vec<u8> = Vec::new();
        wire::push_be(&mut buf, self.message_type as u64, 2);
        wire::push_be(&mut buf, self.sequence_number as u64, 4);
        wire::push_all(&mut buf, self.payload.as_slice());
        assert(buf@ =~= envelope_bytes(self.message_type, self.sequence_number, self.payload@));
        buf
    }

    /// Unpacks an envelope, which takes at least 6 bytes.
    pub fn unpack(data: &[u8]) -> (r: Result<Self, EnvelopeError>)
        ensures
            (match r {
                Ok(e) => parsed_envelope(data@) == Some(
                    (e.message_type, e.sequence_number, e.payload@),
                ),
                Err(e) => parsed_envelope(data@) is None && e == EnvelopeError::TooShort(
                    data@.len() as usize,
                ),
            }),
    {
        if data.len() < 6 {
            return Err(EnvelopeError::TooShort(data.len()));
        }
        proof {
            wire::lemma_pow256_values();
        }
        Ok(
            ChannelEnvelope {
                message_type: wire::read_be(data, 0, 2) as u16,
                sequence_number: wire::read_be(data, 2, 4) as u32,
                payload: wire::copy_range(data, 6, data.len()),
            },
        )
    }
}

/// An envelope begins with the type in two bytes and the number in four, both with the
/// most significant byte first, and then has the payload. What is shorter is none.
pub proof fn law_envelope_layout(message_type: u16, sequence_number: u32, payload: Seq<u8>, b: Seq<u8>)
    ensures
        ({
            let e = envelope_bytes(message_type, sequence_number, payload);
            &&& e[0] * 256 + e[1] == message_type
            &&& ((e[2] * 256 + e[3]) * 256 + e[4]) * 256 + e[5] == sequence_number
            &&& e.subrange(6, e.len() as int) == payload
        }),
        parsed_envelope(b) is None <==> b.len() < 6,
{
    let e = envelope_bytes(message_type, sequence_number, payload);
    law_envelope_roundtrip(message_type, sequence_number, payload);
    wire::lemma_be_len(message_type as nat, 2);
    wire::lemma_be_len(sequence_number as nat, 4);
    wire::lemma_pow256_values();
    wire::lemma_be_roundtrip(message_type as nat, 2);
    wire::lemma_be_roundtrip(sequence_number as nat, 4);
    let t = wire::be(message_type as nat, 2);
    let n = wire::be(sequence_number as nat, 4);
    assert(t =~= seq![t[0]] + seq![t[1]]);
    wire::law_most_significant_first(seq![t[0]], seq![t[1]], t[0]);
    wire::law_most_significant_first(seq![t[0]], seq![t[1]], t[1]);
    assert(n =~= (seq![n[0], n[1], n[2]]) + seq![n[3]]);
    assert(seq![n[0], n[1], n[2]] =~= seq![n[0], n[1]] + seq![n[2]]);
    assert(seq![n[0], n[1]] =~= seq![n[0]] + seq![n[1]]);
    wire::law_most_significant_first(seq![n[0], n[1], n[2]], seq![n[3]], n[3]);
    wire::law_most_significant_first(seq![n[0], n[1]], seq![n[2]], n[2]);
    wire::law_most_significant_first(seq![n[0]], seq![n[1]], n[1]);
    wire::law_most_significant_first(seq![n[0]], seq![n[1]], n[0]);
    assert(e[0] == t[0] && e[1] == t[1]);
    assert(e[2] == n[0] && e[3] == n[1] && e[4] == n[2] && e[5] == n[3]);
    assert(e.subrange(6, e.len() as int) =~= payload);
}

/// Messages of a channel are told from pieces of a stream by their type.
pub proof fn law_message_types()
    ensures
        SystemMessageType::SMT_CHANNEL_DATA.number() == 0,
        SystemMessageType::SMT_STREAM_DATA.number() == 0xFF00,
{
}

} // verus!
