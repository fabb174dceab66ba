//! Symmetric primitives: key derivation and authenticated tokens.

pub mod hkdf;
pub mod primitives;
pub mod token;

pub use hkdf::hkdf_sha256;
pub use token::{Token, TokenError};
