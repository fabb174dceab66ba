//! Cryptographic identity: key pairs, addresses and signed announcements.
//!
//! There are two kinds of address:
//! - [`Address`], the 32-byte BLAKE3 digest of a public key, used internally;
//! - [`RnsAddress`], the first 16 bytes of its SHA-256 digest, used on the wire.

pub mod address;
pub mod crypto;
pub mod error;
pub mod identity_announce;
pub mod keys;
pub mod ratchet_store;
pub mod rns_address;

pub use address::Address;
pub use crypto::{decrypt_packet, encrypt_packet, CryptoError, DerivedKey, Fernet};
pub use error::IdentityError;
pub use identity_announce::IdentityAnnounce;
pub use keys::Keys;
pub use rns_address::RnsAddress;

use vstd::prelude::*;

verus! {

pub const ADDRESS_LEN: usize = 32;

pub const RNS_ADDRESS_LEN: usize = 16;

pub const IDENTITY_KEY_LEN: usize = 32;

pub const ENCRYPTION_KEY_LEN: usize = 32;

/// Full public key: the X25519 key, then the Ed25519 key.
pub const FULL_PUBLIC_KEY_LEN: usize = 64;

pub const SIGNATURE_LEN: usize = 64;

/// Derived key length (HKDF-SHA256 output).
pub const DERIVED_KEY_LEN: usize = 32;

/// What a token adds to its ciphertext: a 16-byte IV and a 32-byte tag.
pub const FERNET_OVERHEAD: usize = 48;

/// Ephemeral public key length (X25519).
pub const EPHEMERAL_KEY_LEN: usize = 32;

} // verus!
