//! Faces: endpoints that Interests and Data are exchanged with.

use crate::span::TimeSpan;
use vstd::prelude::*;

verus! {

/// Identifies a face within a forwarder.
pub type FaceId = u64;

/// What a face can do.
#[derive(Debug, Clone, Copy, PartialEq, Eq)]
pub struct FaceCapabilities {
    /// The longest disruption to be expected.
    pub disruption_tolerance: TimeSpan,
    /// Most bytes per transmission.
    pub mtu: usize,
    /// Whether the face stays within this machine.
    pub is_local: bool,
}

impl FaceCapabilities {
    /// A face within this process.
    pub fn in_memory() -> (c: Self)
        ensures
            c == (FaceCapabilities {
                disruption_tolerance: TimeSpan { secs: 5, nanos: 0 },
                mtu: 1500,
                is_local: true,
            }),
    {
        FaceCapabilities {
            disruption_tolerance: TimeSpan::from_secs(5),
            mtu: 1500,
            is_local: true,
        }
    }

    /// A face over a link, which can be disrupted for an hour.
    pub fn over_link() -> (c: Self)
        ensures
            c == (FaceCapabilities {
                disruption_tolerance: TimeSpan { secs: 3600, nanos: 0 },
                mtu: 500,
                is_local: false,
            }),
    {
        FaceCapabilities {
            disruption_tolerance: TimeSpan::from_secs(3600),
            mtu: 500,
            is_local: false,
        }
    }
}

} // verus!
