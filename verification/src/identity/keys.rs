//! Key pairs.

use crate::crypto::primitives;
use crate::identity::address::Address;
use crate::identity::rns_address;
use crate::identity::rns_address::RnsAddress;
use crate::wire;
use vstd::prelude::*;

verus! {

/// A signature that the key does not accept.
#[derive(Debug, PartialEq, Eq, Structural, Clone, Copy)]
pub struct SignatureError;

/// A key pair bundle: Ed25519 for signing and identity, X25519 for encryption.
#[derive(Clone, Copy)]
pub struct Keys {
    /// The Ed25519 seed.
    pub signing: [u8; 32],
    /// The X25519 secret.
    pub encryption: [u8; 32],
}

impl Keys {
    /// The Ed25519 public key.
    pub open spec fn identity(&self) -> Seq<u8> {
        primitives::ed25519_public(self.signing@)
    }

    /// The X25519 public key.
    pub open spec fn exchange(&self) -> Seq<u8> {
        primitives::x25519_public(self.encryption@)
    }

    /// Generates a fresh key pair bundle.
    pub fn generate() -> (keys: Self) {
        Keys { signing: primitives::random_32(), encryption: primitives::random_32() }
    }

    /// The keys with the given Ed25519 seed and X25519 secret.
    pub fn from_secrets(signing: [u8; 32], encryption: [u8; 32]) -> (keys: Self)
        ensures
            keys.signing == signing,
            keys.encryption == encryption,
    {
        Keys { signing, encryption }
    }

    /// The Ed25519 public key, in its compressed form.
    pub fn identity_key(&self) -> (key: [u8; 32])
        ensures
            key@ == self.identity(),
    {
        primitives::ed25519_public_key(&self.signing)
    }

    /// The bytes of the Ed25519 public key.
    pub fn identity_key_bytes(&self) -> (key: [u8; 32])
        ensures
            key@ == self.identity(),
    {
        self.identity_key()
    }

    /// The X25519 public key.
    pub fn encryption_key(&self) -> (key: [u8; 32])
        ensures
            key@ == self.exchange(),
    {
        primitives::x25519_public_key(&self.encryption)
    }

    /// The X25519 public key followed by the Ed25519 public key.
    pub fn full_public_key_bytes(&self) -> (key: [u8; 64])
        ensures
            key@ == self.exchange() + self.identity(),
            self.exchange().len() == 32,
            self.identity().len() == 32,
    {
        let exchange: [u8; 32] = self.encryption_key();
        let identity: [u8; 32] = self.identity_key();
        let mut both: Vec<u8> = Vec::new();
        wire::push_all(&mut both, exchange.as_slice());
        wire::push_all(&mut both, identity.as_slice());
        let key: [u8; 64] = wire::read_64(both.as_slice(), 0);
        assert(key@ =~= exchange@ + identity@);
        key
    }

    /// The Ed25519 seed.
    pub fn signing_secret_bytes(&self) -> (seed: [u8; 32])
        ensures
            seed == self.signing,
    {
        self.signing
    }

    /// The X25519 secret.
    pub fn encryption_secret_bytes(&self) -> (secret: [u8; 32])
        ensures
            secret == self.encryption,
    {
        self.encryption
    }

    /// Signs a message. The identity key accepts the signature.
    pub fn sign(&self, message: &[u8]) -> (signature: [u8; 64])
        ensures
            signature@ == primitives::ed25519_signature(self.signing@, message@),
            primitives::ed25519_accepts(self.identity(), message@, signature@),
    {
        primitives::ed25519_sign(&self.signing, message)
    }

    /// Verifies a signature against this identity's public key.
    pub fn verify(&self, message: &[u8], signature: &[u8; 64]) -> (r: Result<(), SignatureError>)
        ensures
            r is Ok <==> primitives::ed25519_accepts(self.identity(), message@, signature@),
    {
        let public: [u8; 32] = self.identity_key();
        if primitives::ed25519_verify(&public, message, signature) {
            Ok(())
        } else {
            Err(SignatureError)
        }
    }

    /// The 32-byte BLAKE3 address.
    pub fn address(&self) -> (addr: Address)
        ensures
            addr@ == primitives::blake3_digest(self.identity()),
    {
        Address::from_identity_key(&self.identity_key_bytes())
    }

    /// The 16-byte wire address.
    pub fn rns_address(&self) -> (addr: RnsAddress)
        ensures
            addr@ == rns_address::rns_hash(self.identity()),
    {
        RnsAddress::from_identity_key(&self.identity_key_bytes())
    }

    /// The X25519 secret.
    pub fn encryption_secret(&self) -> (secret: &[u8; 32])
        ensures
            *secret == self.encryption,
    {
        &self.encryption
    }
}

/// A signature is accepted by the keys that made it.
pub proof fn law_own_signature_is_accepted(
    keys: &Keys,
    message: &[u8],
    signature: [u8; 64],
    r: Result<(), SignatureError>,
)
    requires
        call_ensures(Keys::sign, (keys, message), signature),
        call_ensures(Keys::verify, (keys, message, &signature), r),
    ensures
        r is Ok,
{
}

/// Keys are what their secrets make them, and their addresses are digests of their Ed25519
/// key.
pub proof fn law_keys_of_secrets(
    signing: [u8; 32],
    encryption: [u8; 32],
    keys: Keys,
    full: [u8; 64],
    a: Address,
    b: RnsAddress,
)
    requires
        call_ensures(Keys::from_secrets, (signing, encryption), keys),
        call_ensures(Keys::full_public_key_bytes, (&keys,), full),
        call_ensures(Keys::address, (&keys,), a),
        call_ensures(Keys::rns_address, (&keys,), b),
    ensures
        full@.subrange(0, 32) == primitives::x25519_public(encryption@),
        full@.subrange(32, 64) == primitives::ed25519_public(signing@),
        a@ == primitives::blake3_digest(primitives::ed25519_public(signing@)),
        b@ == primitives::sha256_digest(primitives::ed25519_public(signing@)).subrange(0, 16),
{
    assert(full@.subrange(0, 32) =~= keys.exchange());
    assert(full@.subrange(32, 64) =~= keys.identity());
}

} // verus!
