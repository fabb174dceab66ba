//! Errors of the mesh layer.

use crate::text;
use vstd::prelude::*;

verus! {

#[derive(Debug, Clone, PartialEq, Eq)]
pub enum MeshError {
    Io(String),
    UnknownPeer(String),
    Serde(String),
    TtlExpired,
    InvalidPacket(&'static str),
}

impl MeshError {
    /// The text of the error.
    pub open spec fn message(&self) -> Seq<char> {
        match *self {
            MeshError::Io(m) => "IO error: "@ + m@,
            MeshError::UnknownPeer(m) => "unknown peer: "@ + m@,
            MeshError::Serde(m) => "serialization: "@ + m@,
            MeshError::TtlExpired => "packet TTL expired"@,
            MeshError::InvalidPacket(m) => "invalid packet: "@ + m@,
        }
    }

    /// The message that describes the error.
    pub fn to_string(&self) -> (out: String)
        ensures
            out@ == self.message(),
    {
        match self {
            MeshError::Io(m) => text::join("IO error: ", m.as_str()),
            MeshError::UnknownPeer(m) => text::join("unknown peer: ", m.as_str()),
            MeshError::Serde(m) => text::join("serialization: ", m.as_str()),
            MeshError::TtlExpired => "packet TTL expired".to_owned(),
            MeshError::InvalidPacket(m) => text::join("invalid packet: ", m),
        }
    }
}

} // verus!
