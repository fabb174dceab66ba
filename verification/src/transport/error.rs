//! Errors of the transport layer.

use crate::packet::PacketError;
use crate::text;
use vstd::prelude::*;

verus! {

/// Errors that can occur in the transport layer.
#[derive(Debug, PartialEq, Eq, Clone)]
pub enum TransportError {
    /// The link is not established.
    LinkNotEstablished,
    /// The link is already established.
    LinkAlreadyEstablished,
    /// The link was closed.
    LinkClosed,
    /// An invalid transition of the link was attempted.
    InvalidLinkState(String),
    /// A proof is malformed.
    ProofError(String),
    /// A signature was not accepted.
    SignatureVerification,
    /// A packet could not be read or written.
    PacketError(PacketError),
    /// A segment belongs to another resource.
    UnknownResource(String),
    /// A transfer of the resource is in progress.
    ResourceInProgress(String),
    /// A segment is out of order.
    ResourceSegmentOrder { expected: u32, got: u32 },
    /// A chunk has a wrong size.
    InvalidChunkSize(usize),
    /// Input or output failed.
    Io(String),
    Other(String),
}

/// A packet error, with its text as a sequence of characters.
pub enum PacketFault {
    Invalid(Seq<char>),
    Serde(Seq<char>),
}

/// A transport error, with its text as a sequence of characters.
pub enum TransportFault {
    LinkNotEstablished,
    LinkAlreadyEstablished,
    LinkClosed,
    InvalidLinkState(Seq<char>),
    ProofError(Seq<char>),
    SignatureVerification,
    PacketError(PacketFault),
    UnknownResource(Seq<char>),
    ResourceInProgress(Seq<char>),
    ResourceSegmentOrder { expected: u32, got: u32 },
    InvalidChunkSize(usize),
    Io(Seq<char>),
    Other(Seq<char>),
}

impl View for PacketError {
    type V = PacketFault;

    open spec fn view(&self) -> PacketFault {
        match *self {
            PacketError::Invalid(m) => PacketFault::Invalid(m@),
            PacketError::Serde(m) => PacketFault::Serde(m@),
        }
    }
}

impl View for TransportError {
    type V = TransportFault;

    open spec fn view(&self) -> TransportFault {
        match *self {
            TransportError::LinkNotEstablished => TransportFault::LinkNotEstablished,
            TransportError::LinkAlreadyEstablished => TransportFault::LinkAlreadyEstablished,
            TransportError::LinkClosed => TransportFault::LinkClosed,
            TransportError::InvalidLinkState(m) => TransportFault::InvalidLinkState(m@),
            TransportError::ProofError(m) => TransportFault::ProofError(m@),
            TransportError::SignatureVerification => TransportFault::SignatureVerification,
            TransportError::PacketError(e) => TransportFault::PacketError(e@),
            TransportError::UnknownResource(m) => TransportFault::UnknownResource(m@),
            TransportError::ResourceInProgress(m) => TransportFault::ResourceInProgress(m@),
            TransportError::ResourceSegmentOrder { expected, got } => {
                TransportFault::ResourceSegmentOrder { expected, got }
            },
            TransportError::InvalidChunkSize(n) => TransportFault::InvalidChunkSize(n),
            TransportError::Io(m) => TransportFault::Io(m@),
            TransportError::Other(m) => TransportFault::Other(m@),
        }
    }
}

/// The text of a packet error.
pub open spec fn packet_message(e: PacketFault) -> Seq<char> {
    match e {
        PacketFault::Invalid(m) => "invalid packet: "@ + m,
        PacketFault::Serde(m) => "serialization: "@ + m,
    }
}

impl PacketError {
    /// The message that describes the error.
    pub fn to_string(&self) -> (out: String)
        ensures
            out@ == packet_message(self@),
    {
        match self {
            PacketError::Invalid(m) => text::join("invalid packet: ", m),
            PacketError::Serde(m) => text::join("serialization: ", m.as_str()),
        }
    }
}

/// The text of a transport error.
pub open spec fn transport_message(e: TransportFault) -> Seq<char> {
    match e {
        TransportFault::LinkNotEstablished => "link not established"@,
        TransportFault::LinkAlreadyEstablished => "link already established"@,
        TransportFault::LinkClosed => "link closed"@,
        TransportFault::InvalidLinkState(m) => "invalid link state: "@ + m,
        TransportFault::ProofError(m) => "proof error: "@ + m,
        TransportFault::SignatureVerification => "signature verification failed"@,
        TransportFault::PacketError(p) => "packet error: "@ + packet_message(p),
        TransportFault::UnknownResource(m) => "unknown resource: "@ + m,
        TransportFault::ResourceInProgress(m) => "resource transfer already in progress: "@ + m,
        TransportFault::ResourceSegmentOrder { expected, got } => {
            "resource segment out of order: expected "@ + text::decimal(expected as nat) + ", got "@
                + text::decimal(got as nat)
        },
        TransportFault::InvalidChunkSize(n) => "invalid chunk size: "@ + text::decimal(n as nat),
        TransportFault::Io(m) => "I/O error: "@ + m,
        TransportFault::Other(m) => "transport error: "@ + m,
    }
}

impl TransportError {
    /// The message that describes the error.
    pub fn to_string(&self) -> (out: String)
        ensures
            out@ == transport_message(self@),
    {
        match self {
            TransportError::LinkNotEstablished => "link not established".to_owned(),
            TransportError::LinkAlreadyEstablished => "link already established".to_owned(),
            TransportError::LinkClosed => "link closed".to_owned(),
            TransportError::InvalidLinkState(m) => text::join("invalid link state: ", m.as_str()),
            TransportError::ProofError(m) => text::join("proof error: ", m.as_str()),
            TransportError::SignatureVerification => "signature verification failed".to_owned(),
            TransportError::PacketError(e) => text::join("packet error: ", e.to_string().as_str()),
            TransportError::UnknownResource(m) => text::join("unknown resource: ", m.as_str()),
            TransportError::ResourceInProgress(m) => {
                text::join("resource transfer already in progress: ", m.as_str())
            },
            TransportError::ResourceSegmentOrder { expected, got } => {
                let mut out: String = text::join(
                    "resource segment out of order: expected ",
                    text::to_decimal(*expected as u64).as_str(),
                );
                out.append(", got ");
                out.append(text::to_decimal(*got as u64).as_str());
                out
            },
            TransportError::InvalidChunkSize(n) => {
                text::join("invalid chunk size: ", text::to_decimal(*n as u64).as_str())
            },
            TransportError::Io(m) => text::join("I/O error: ", m.as_str()),
            TransportError::Other(m) => text::join("transport error: ", m.as_str()),
        }
    }
}

} // verus!
