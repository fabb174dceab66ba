//! Errors of the daemon.

use crate::channel::ChannelError;
use crate::mesh::MeshError;
use crate::text;
use crate::transport::error;
use crate::transport::TransportError;
use vstd::prelude::*;

verus! {

#[derive(Debug, Clone, PartialEq, Eq)]
pub enum DaemonError {
    /// No medium reaches the destination.
    NoRoute,
    /// There is no established link to the destination.
    NoLink,
    Icn(String),
    Channel(ChannelError),
    Mesh(MeshError),
    Transport(TransportError),
    Io(String),
    Other(String),
}

impl DaemonError {
    /// The text of the error.
    pub open spec fn message(&self) -> Seq<char> {
        match *self {
            DaemonError::NoRoute => "no route to destination"@,
            DaemonError::NoLink => "no established link to destination"@,
            DaemonError::Icn(m) => "ICN error: "@ + m@,
            DaemonError::Channel(e) => "channel error: "@ + e.message(),
            DaemonError::Mesh(e) => "mesh error: "@ + e.message(),
            DaemonError::Transport(e) => "transport error: "@ + error::transport_message(e@),
            DaemonError::Io(m) => "IO error: "@ + m@,
            DaemonError::Other(m) => m@,
        }
    }

    /// The message that describes the error.
    pub fn to_string(&self) -> (out: String)
        ensures
            out@ == self.message(),
    {
        match self {
            DaemonError::NoRoute => "no route to destination".to_owned(),
            DaemonError::NoLink => "no established link to destination".to_owned(),
            DaemonError::Icn(m) => text::join("ICN error: ", m.as_str()),
            DaemonError::Channel(e) => text::join("channel error: ", e.to_string().as_str()),
            DaemonError::Mesh(e) => text::join("mesh error: ", e.to_string().as_str()),
            DaemonError::Transport(e) => text::join("transport error: ", e.to_string().as_str()),
            DaemonError::Io(m) => text::join("IO error: ", m.as_str()),
            DaemonError::Other(m) => m.as_str().to_owned(),
        }
    }
}

} // verus!
