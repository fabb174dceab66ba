//! Mesh routing: peers, routes and path discovery.
//!
//! Qualities are the bit patterns of floating-point numbers, and are compared as the
//! numbers are.

pub mod error;
pub mod link;
pub mod path_request;
pub mod routing;
pub mod score;
pub mod udp;

pub use error::MeshError;
pub use link::{LinkConfig, LinkManager, LinkQuality, PeerInfo};
pub use path_request::{PathReply, PathRequest};
pub use routing::{AnnouncePayload, MeshRouter, RouteEntry};

use vstd::prelude::*;

verus! {

/// Most hops that a packet travels.
pub const MAX_HOPS: u8 = 64;

/// The quality of a perfect path: the bits of 1.
pub const PERFECT_QUALITY: u64 = 0x3FF0_0000_0000_0000;

} // verus!
