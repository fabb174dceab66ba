//! Information-centric networking: named, signed content.

pub mod cs;
pub mod data;
pub mod demo;
pub mod face;
pub mod fib;
pub mod forwarder;
pub mod interest;
pub mod link_face;
pub mod manifest;
pub mod name;
pub mod pit;
pub mod strategy;
pub mod varint;

pub use cs::{CachedData, ContentStore};
pub use data::{Data, DataError, DataMetadata, Freshness};
pub use face::{FaceCapabilities, FaceId};
pub use fib::{Fib, FibEntry};
pub use forwarder::{first_data, Forwarder, InterestResult, PitNotifier, Recipients, Step};
pub use interest::{Interest, InterestError, InterestSelector};
pub use pit::{Pit, PitEntry, PitOp};
pub use strategy::{BestRoute, Strategy, StrategyDecision};
pub use link_face::LinkFace;
pub use manifest::{ChunkRef, ContentManifest, EntryKind, Manifest, ManifestEntry, ManifestError};
pub use name::{Name, NameError, MAX_COMPONENTS};
