//! The network daemon: identity, links, routing and content in one node.

pub mod announce;
pub mod api;
pub mod commands;
pub mod config;
pub mod error;
pub mod json;
pub mod key_file;
pub mod link_request;
pub mod node;

pub use api::{ApiCommand, DaemonStatus};
pub use announce::build_announce_packet;
pub use commands::Handled;
pub use config::{Config, ConfigError, IcnConfig, IdentityConfig, InterfaceConfig};
pub use error::DaemonError;
pub use link_request::compute_link_id_from_request;
pub use node::{Daemon, Outgoing, Reaction};
