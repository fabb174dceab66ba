//! Links, packet transport, resources and proofs.

pub mod error;
pub mod link;
pub mod packet_transport;
pub mod proofs;
pub mod resource;
pub mod suspendable;

pub use error::TransportError;
pub use link::{Link, LinkConfig, LinkState};
pub use packet_transport::{recv_packet, send_packet, PacketTransport};
pub use proofs::{generate_proof, verify_proof, verify_proof_with_public_key, Proof};
pub use resource::{Resource, ResourceConfig, ResourceState, Segment, SegmentTracker};
pub use suspendable::{SuspendableLink, SuspendableState, SuspendedSession};

use vstd::prelude::*;

verus! {

/// Seconds between two KEEPALIVE packets on an idle link.
pub const KEEPALIVE_INTERVAL_SECS: u64 = 30;

/// Seconds without inbound traffic after which a probe is sent.
pub const TRAFFIC_TIMEOUT_SECS: u64 = 300;

/// Seconds without a response after which a link is closed as stale.
pub const STALE_TIME_SECS: u64 = 600;

} // verus!
