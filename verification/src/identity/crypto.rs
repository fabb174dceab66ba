//! Key derivation, sealed messages between identities, and encrypted packets.
//!
//! ```text
//! shared_secret = X25519(our_secret, their_public)
//! derived_key   = HKDF-SHA256(shared_secret, salt = recipient address)
//! message       = ephemeral_public(32) || IV(16) || ciphertext || HMAC-SHA256(32)
//! ```
//!
//! The first 16 bytes of the derived key sign, the last 16 encrypt.

use crate::crypto::hkdf;
use crate::crypto::primitives;
use crate::crypto::token;
use crate::crypto::token::{Token, TokenError};
use crate::identity::keys::Keys;
use crate::identity::rns_address;
use crate::wire;
use vstd::prelude::*;

verus! {

/// Errors from cryptographic operations.
#[derive(Debug, PartialEq, Eq, Clone)]
pub enum CryptoError {
    Encryption,
    Decryption(String),
    Rng,
}

/// A cryptographic error, with its text as a sequence of characters.
pub enum CryptoFault {
    Encryption,
    Decryption(Seq<char>),
    Rng,
}

impl View for CryptoError {
    type V = CryptoFault;

    open spec fn view(&self) -> CryptoFault {
        match *self {
            CryptoError::Encryption => CryptoFault::Encryption,
            CryptoError::Decryption(m) => CryptoFault::Decryption(m@),
            CryptoError::Rng => CryptoFault::Rng,
        }
    }
}

impl CryptoError {
    /// The message that describes the error.
    pub fn to_string(&self) -> (text: String)
        ensures
            text@ == (match self@ {
                CryptoFault::Encryption => "encryption failed"@,
                CryptoFault::Decryption(m) => "decryption: "@ + m,
                CryptoFault::Rng => "random number generation failed"@,
            }),
    {
        match self {
            CryptoError::Encryption => "encryption failed".to_owned(),
            CryptoError::Decryption(m) => {
                let mut text: String = "decryption: ".to_owned();
                text.append(m.as_str());
                text
            },
            CryptoError::Rng => "random number generation failed".to_owned(),
        }
    }
}

/// The outcome of an operation, over byte sequences.
pub open spec fn outcome(r: Result<Vec<u8>, CryptoError>) -> Result<Seq<u8>, CryptoFault> {
    match r {
        Ok(b) => Ok(b@),
        Err(e) => Err(e@),
    }
}

// --- Derived keys ---

/// The key derived from a shared secret; without a salt, 32 zero bytes are used.
pub open spec fn derived(shared: Seq<u8>, salt: Option<Seq<u8>>) -> Seq<u8> {
    let salt_bytes = match salt {
        Some(s) => s,
        None => Seq::new(32, |i: int| 0u8),
    };
    primitives::hmac_tag(primitives::hmac_tag(salt_bytes, shared), seq![1u8])
}

/// A 32-byte key derived from an X25519 shared secret: 16 bytes that sign, then 16
/// that encrypt.
#[derive(Clone, Debug)]
pub struct DerivedKey {
    pub key: [u8; 32],
}

impl Drop for DerivedKey {
    /// A key leaves no bytes behind.
    fn drop(&mut self)
        ensures
            final(self).key@ == Seq::new(32, |i: int| 0u8),
        opens_invariants none
        no_unwind
    {
        self.zeroize();
    }
}

impl DerivedKey {
    /// Overwrites the key with zeros.
    pub fn zeroize(&mut self)
        ensures
            final(self).key@ == Seq::new(32, |i: int| 0u8),
        opens_invariants none
        no_unwind
    {
        primitives::wipe(&mut self.key);
    }

    /// Derives a key from a shared secret and an optional salt.
    pub fn new(shared_key: &[u8; 32], salt: Option<&[u8]>) -> (dk: Self)
        ensures
            dk.key@ == derived(shared_key@, wire::slice_view(salt)),
    {
        let zeros: [u8; 32] = [0u8; 32];
        let salt_bytes: &[u8] = match salt {
            Some(s) => s,
            None => zeros.as_slice(),
        };
        let empty: [u8; 0] = [];
        assert(zeros@ =~= Seq::new(32, |i: int| 0u8));
        assert(empty@ + seq![1u8] =~= seq![1u8]);
        DerivedKey {
            key: primitives::hkdf_block(salt_bytes, shared_key.as_slice(), empty.as_slice()),
        }
    }

    /// Derives a key from our X25519 secret and their public key. The holder of their
    /// secret derives the same key from our public key.
    pub fn from_static(our_key: &[u8; 32], their_key: &[u8; 32]) -> (dk: Self)
        ensures
            dk.key@ == derived(primitives::x25519_shared(our_key@, their_key@), None),
            forall|other: Seq<u8>|
                other.len() == 32 && their_key@ == #[trigger] primitives::x25519_public(other)
                    ==> dk.key@ == derived(
                    primitives::x25519_shared(other, primitives::x25519_public(our_key@)),
                    None,
                ),
    {
        DerivedKey::new(&primitives::x25519_diffie_hellman(our_key, their_key), None)
    }

    /// Derives a key from an ephemeral X25519 secret and their public key. The holder of
    /// their secret derives the same key from the ephemeral public key.
    pub fn from_ephemeral(ephemeral: [u8; 32], their_key: &[u8; 32]) -> (dk: Self)
        ensures
            dk.key@ == derived(primitives::x25519_shared(ephemeral@, their_key@), None),
            forall|other: Seq<u8>|
                other.len() == 32 && their_key@ == #[trigger] primitives::x25519_public(other)
                    ==> dk.key@ == derived(
                    primitives::x25519_shared(other, primitives::x25519_public(ephemeral@)),
                    None,
                ),
    {
        DerivedKey::new(&primitives::x25519_diffie_hellman(&ephemeral, their_key), None)
    }

    /// The all-zero placeholder key.
    pub fn empty() -> (dk: Self)
        ensures
            dk.key@ == Seq::new(32, |i: int| 0u8),
    {
        let dk: DerivedKey = DerivedKey { key: [0u8; 32] };
        assert(dk.key@ =~= Seq::new(32, |i: int| 0u8));
        dk
    }

    pub fn as_bytes(&self) -> (key: &[u8; 32])
        ensures
            *key == self.key,
    {
        &self.key
    }

    /// The signing half: the first 16 bytes.
    pub fn sign_key(&self) -> (key: &[u8])
        ensures
            key@ == self.key@.subrange(0, 16),
    {
        vstd::slice::slice_subrange(self.key.as_slice(), 0, 16)
    }

    /// The encryption half: the last 16 bytes.
    pub fn enc_key(&self) -> (key: &[u8])
        ensures
            key@ == self.key@.subrange(16, 32),
    {
        vstd::slice::slice_subrange(self.key.as_slice(), 16, 32)
    }
}

// --- Fernet ---

/// What a token opens to. A token holds an IV, a tag and at least one byte between.
pub open spec fn fernet_opened(sign_key: Seq<u8>, enc_key: Seq<u8>, bytes: Seq<u8>) -> Result<
    Seq<u8>,
    CryptoFault,
> {
    if bytes.len() < 49 {
        Err(CryptoFault::Decryption("token too short"@))
    } else {
        match token::opened(sign_key, enc_key, bytes) {
            Ok(p) => Ok(p),
            Err(TokenError::DecryptionFailed) => Err(CryptoFault::Decryption("decryption failed"@)),
            Err(_) => Err(CryptoFault::Decryption("hmac verification failed"@)),
        }
    }
}

/// Token encryption with a signing key and an encryption key of 16 bytes each. Tokens
/// have neither a version byte nor a timestamp.
pub struct Fernet {
    pub sign_key: [u8; 16],
    pub enc_key: [u8; 16],
}

impl Drop for Fernet {
    /// Keys leave no bytes behind.
    fn drop(&mut self)
        ensures
            final(self).sign_key@ == Seq::new(16, |i: int| 0u8),
            final(self).enc_key@ == Seq::new(16, |i: int| 0u8),
        opens_invariants none
        no_unwind
    {
        self.zeroize();
    }
}

impl Fernet {
    /// Overwrites both keys with zeros.
    pub fn zeroize(&mut self)
        ensures
            final(self).sign_key@ == Seq::new(16, |i: int| 0u8),
            final(self).enc_key@ == Seq::new(16, |i: int| 0u8),
        opens_invariants none
        no_unwind
    {
        primitives::wipe(&mut self.sign_key);
        primitives::wipe(&mut self.enc_key);
    }

    /// Splits a derived key into its two halves.
    pub fn from_derived_key(derived: &DerivedKey) -> (f: Self)
        ensures
            f.sign_key@ == derived.key@.subrange(0, 16),
            f.enc_key@ == derived.key@.subrange(16, 32),
    {
        Fernet {
            sign_key: wire::read_16(derived.key.as_slice(), 0),
            enc_key: wire::read_16(derived.key.as_slice(), 16),
        }
    }

    /// Encrypts with a fresh random IV, producing `IV(16) + ciphertext + HMAC(32)`.
    pub fn encrypt(&self, plaintext: &[u8]) -> (r: Result<Vec<u8>, CryptoError>)
        ensures
            r is Ok,
            exists|iv: Seq<u8>|
                iv.len() == 16 && r->Ok_0@ == #[trigger] token::sealed(
                    self.sign_key@,
                    self.enc_key@,
                    iv,
                    plaintext@,
                ),
            r->Ok_0@.len() == 48 + primitives::padded_len(plaintext@.len()),
            fernet_opened(self.sign_key@, self.enc_key@, r->Ok_0@) == Ok::<Seq<u8>, CryptoFault>(
                plaintext@,
            ),
    {
        let iv: [u8; 16] = primitives::os_random_16();
        Ok(self.encrypt_with_iv(plaintext, &iv))
    }

    /// Encrypts with the given IV.
    pub fn encrypt_with_iv(&self, plaintext: &[u8], iv: &[u8; 16]) -> (t: Vec<u8>)
        ensures
            t@ == token::sealed(self.sign_key@, self.enc_key@, iv@, plaintext@),
            t@.len() == 48 + primitives::padded_len(plaintext@.len()),
            fernet_opened(self.sign_key@, self.enc_key@, t@) == Ok::<Seq<u8>, CryptoFault>(
                plaintext@,
            ),
    {
        token::seal(&self.sign_key, &self.enc_key, iv, plaintext)
    }

    /// Verifies the tag of a token and decrypts it.
    pub fn decrypt(&self, bytes: &[u8]) -> (r: Result<Vec<u8>, CryptoError>)
        ensures
            outcome(r) == fernet_opened(self.sign_key@, self.enc_key@, bytes@),
    {
        if bytes.len() < 49 {
            return Err(CryptoError::Decryption("token too short".to_owned()));
        }
        match token::open_token(&self.sign_key, &self.enc_key, bytes) {
            Ok(p) => Ok(p),
            Err(TokenError::DecryptionFailed) => {
                Err(CryptoError::Decryption("decryption failed".to_owned()))
            },
            Err(TokenError::BadHmac) => {
                Err(CryptoError::Decryption("hmac verification failed".to_owned()))
            },
            Err(TokenError::TooShort) => {
                Err(CryptoError::Decryption("hmac verification failed".to_owned()))
            },
        }
    }
}

// --- Messages between identities ---

/// The sealed message: the ephemeral public key, then a token under the derived key.
pub open spec fn boxed(
    ephemeral: Seq<u8>,
    recipient_public: Seq<u8>,
    recipient_hash: Seq<u8>,
    iv: Seq<u8>,
    plaintext: Seq<u8>,
) -> Seq<u8> {
    let key = derived(
        primitives::x25519_shared(ephemeral, recipient_public),
        Some(recipient_hash),
    );
    primitives::x25519_public(ephemeral) + token::sealed(
        key.subrange(0, 16),
        key.subrange(16, 32),
        iv,
        plaintext,
    )
}

/// What a sealed message opens to for the holder of an X25519 secret and an address.
pub open spec fn unboxed(secret: Seq<u8>, own_hash: Seq<u8>, message: Seq<u8>) -> Result<
    Seq<u8>,
    CryptoFault,
> {
    if message.len() < 81 {
        Err(CryptoFault::Decryption("ciphertext too short for ephemeral key + token"@))
    } else {
        let key = derived(
            primitives::x25519_shared(secret, message.subrange(0, 32)),
            Some(own_hash),
        );
        fernet_opened(
            key.subrange(0, 16),
            key.subrange(16, 32),
            message.subrange(32, message.len() as int),
        )
    }
}

impl Keys {
    /// Encrypts for a recipient, given by X25519 public key and address.
    ///
    /// Returns `ephemeral_public_key(32) || token`. Whoever holds the secret of
    /// `recipient_public` and has the address `recipient_hash` reads the message back.
    pub fn encrypt_for(
        &self,
        recipient_public: &[u8; 32],
        recipient_hash: &[u8; 16],
        plaintext: &[u8],
    ) -> (r: Result<Vec<u8>, CryptoError>)
        ensures
            r is Ok,
            exists|ephemeral: Seq<u8>, iv: Seq<u8>|
                ephemeral.len() == 32 && iv.len() == 16 && r->Ok_0@ == #[trigger] boxed(
                    ephemeral,
                    recipient_public@,
                    recipient_hash@,
                    iv,
                    plaintext@,
                ),
            r->Ok_0@.len() == 80 + primitives::padded_len(plaintext@.len()),
            forall|secret: Seq<u8>|
                secret.len() == 32 && recipient_public@ == #[trigger] primitives::x25519_public(secret)
                    ==> unboxed(secret, recipient_hash@, r->Ok_0@) == Ok::<Seq<u8>, CryptoFault>(
                    plaintext@,
                ),
    {
        let ephemeral: [u8; 32] = primitives::random_32();
        let iv: [u8; 16] = primitives::os_random_16();
        Ok(Keys::encrypt_for_with(recipient_public, recipient_hash, plaintext, &ephemeral, &iv))
    }

    /// Encrypts for a recipient with the given ephemeral secret and IV.
    pub fn encrypt_for_with(
        recipient_public: &[u8; 32],
        recipient_hash: &[u8; 16],
        plaintext: &[u8],
        ephemeral: &[u8; 32],
        iv: &[u8; 16],
    ) -> (message: Vec<u8>)
        ensures
            message@ == boxed(
                ephemeral@,
                recipient_public@,
                recipient_hash@,
                iv@,
                plaintext@,
            ),
            message@.len() == 80 + primitives::padded_len(plaintext@.len()),
            forall|secret: Seq<u8>|
                secret.len() == 32 && recipient_public@ == #[trigger] primitives::x25519_public(secret)
                    ==> unboxed(secret, recipient_hash@, message@) == Ok::<Seq<u8>, CryptoFault>(
                    plaintext@,
                ),
    {
        let ephemeral_public: [u8; 32] = primitives::x25519_public_key(ephemeral);
        let mut shared: [u8; 32] = primitives::x25519_diffie_hellman(ephemeral, recipient_public);
        let dk: DerivedKey = DerivedKey::new(&shared, Some(recipient_hash.as_slice()));
        let t: Vec<u8> = Fernet::from_derived_key(&dk).encrypt_with_iv(plaintext, iv);
        primitives::wipe(&mut shared);
        let mut message: Vec<u8> = Vec::new();
        wire::push_all(&mut message, ephemeral_public.as_slice());
        wire::push_all(&mut message, t.as_slice());
        proof {
            assert(message@ =~= ephemeral_public@ + t@);
            assert(message@.subrange(0, 32) =~= ephemeral_public@);
            assert(message@.subrange(32, message@.len() as int) =~= t@);
        }
        message
    }

    /// Decrypts what [`Keys::encrypt_for`] made for this identity.
    pub fn decrypt_from(&self, ciphertext: &[u8]) -> (r: Result<Vec<u8>, CryptoError>)
        ensures
            outcome(r) == unboxed(
                self.encryption@,
                rns_address::rns_hash(self.identity()),
                ciphertext@,
            ),
    {
        if ciphertext.len() < 81 {
            return Err(
                CryptoError::Decryption(
                    "ciphertext too short for ephemeral key + token".to_owned(),
                ),
            );
        }
        let their_ephemeral: [u8; 32] = wire::read_32(ciphertext, 0);
        let bytes: Vec<u8> = wire::copy_range(ciphertext, 32, ciphertext.len());
        let mut shared: [u8; 32] = primitives::x25519_diffie_hellman(
            &self.encryption,
            &their_ephemeral,
        );
        let own = self.rns_address();
        let dk: DerivedKey = DerivedKey::new(&shared, Some(own.as_bytes().as_slice()));
        primitives::wipe(&mut shared);
        Fernet::from_derived_key(&dk).decrypt(bytes.as_slice())
    }
}

// --- X25519 key exchange ---

/// Generates an ephemeral X25519 key pair: the secret and its public key.
pub fn generate_ephemeral_x25519() -> (pair: ([u8; 32], [u8; 32]))
    ensures
        pair.1@ == primitives::x25519_public(pair.0@),
{
    let secret: [u8; 32] = primitives::random_32();
    let public: [u8; 32] = primitives::x25519_public_key(&secret);
    (secret, public)
}

/// Converts an Ed25519 public key to the X25519 public key of the same point. Bytes
/// that are no point of the curve are refused.
pub fn ed25519_pub_to_x25519(ed25519_pub: &[u8; 32]) -> (r: Result<[u8; 32], CryptoError>)
    ensures
        (match r {
            Ok(k) => primitives::ed25519_montgomery(ed25519_pub@) == Some(k@),
            Err(e) => primitives::ed25519_montgomery(ed25519_pub@) is None && e
                == CryptoError::Encryption,
        }),
        forall|seed: Seq<u8>|
            seed.len() == 32 && ed25519_pub@ == #[trigger] primitives::ed25519_public(seed) ==> (
            r matches Ok(k) && k@ == primitives::x25519_public(x25519_scalar(seed)) && x25519_scalar(
                seed,
            ).len() == 32),
{
    match primitives::ed25519_to_montgomery(ed25519_pub) {
        Some(k) => Ok(k),
        None => Err(CryptoError::Encryption),
    }
}

/// The X25519 secret that belongs to an Ed25519 seed.
pub open spec fn x25519_scalar(seed: Seq<u8>) -> Seq<u8> {
    primitives::clamped(primitives::sha512_digest(seed).subrange(0, 32))
}

/// Converts an Ed25519 seed to its X25519 secret: the first half of the SHA-512
/// digest, clamped per RFC 7748.
pub fn ed25519_secret_to_x25519(ed25519_seed: &[u8; 32]) -> (scalar: [u8; 32])
    ensures
        scalar@ == x25519_scalar(ed25519_seed@),
        scalar@[0] & 7 == 0,
        scalar@[31] & 0x80 == 0,
        scalar@[31] & 0x40 == 0x40,
{
    let digest: [u8; 64] = primitives::sha512(ed25519_seed.as_slice());
    let mut scalar: [u8; 32] = wire::read_32(digest.as_slice(), 0);
    let first: u8 = scalar[0];
    let last: u8 = scalar[31];
    scalar[0] = first & 248;
    scalar[31] = (last & 127) | 64;
    assert((first & 248) & 7 == 0) by (bit_vector);
    assert(((last & 127) | 64) & 0x80 == 0) by (bit_vector);
    assert(((last & 127) | 64) & 0x40 == 0x40) by (bit_vector);
    assert(scalar@ =~= x25519_scalar(ed25519_seed@));
    scalar
}

/// Computes the secret shared by an X25519 secret and a public key. The holder of the
/// other secret computes the same from our public key.
pub fn ecdh(secret: [u8; 32], public: &[u8; 32]) -> (shared: [u8; 32])
    ensures
        shared@ == primitives::x25519_shared(secret@, public@),
        forall|other: Seq<u8>|
            other.len() == 32 && public@ == #[trigger] primitives::x25519_public(other) ==> shared@
                == primitives::x25519_shared(other, primitives::x25519_public(secret@)),
{
    primitives::x25519_diffie_hellman(&secret, public)
}

// --- Packet encryption ---

/// The key that protects a packet.
pub open spec fn packet_key(shared: Seq<u8>, recipient_hash: Seq<u8>) -> Seq<u8> {
    hkdf::hkdf_output(32, shared, Some(recipient_hash), None)
}

/// The encrypted packet: the ephemeral public key, then a token.
pub open spec fn packet_sealed(
    ephemeral: Seq<u8>,
    recipient_public: Seq<u8>,
    recipient_hash: Seq<u8>,
    iv: Seq<u8>,
    plaintext: Seq<u8>,
) -> Seq<u8> {
    let key = packet_key(primitives::x25519_shared(ephemeral, recipient_public), recipient_hash);
    primitives::x25519_public(ephemeral) + token::sealed(
        key.subrange(0, 16),
        key.subrange(16, 32),
        iv,
        plaintext,
    )
}

/// What an encrypted packet opens to for the holder of an Ed25519 seed.
pub open spec fn packet_opened(seed: Seq<u8>, recipient_hash: Seq<u8>, encrypted: Seq<u8>) -> Result<
    Seq<u8>,
    CryptoFault,
> {
    if encrypted.len() < 33 {
        Err(CryptoFault::Decryption("ciphertext too short"@))
    } else {
        let key = packet_key(
            primitives::x25519_shared(x25519_scalar(seed), encrypted.subrange(0, 32)),
            recipient_hash,
        );
        match token::opened(
            key.subrange(0, 16),
            key.subrange(16, 32),
            encrypted.subrange(32, encrypted.len() as int),
        ) {
            Ok(p) => Ok(p),
            Err(TokenError::TooShort) => Err(
                CryptoFault::Decryption("token is too short (must be at least 48 bytes)"@),
            ),
            Err(TokenError::BadHmac) => Err(CryptoFault::Decryption("HMAC verification failed"@)),
            Err(TokenError::DecryptionFailed) => Err(
                CryptoFault::Decryption("decryption failed (bad padding or ciphertext)"@),
            ),
        }
    }
}

/// Encrypts a payload for the holder of an Ed25519 key pair, with a fresh ephemeral
/// key and IV. Only a recipient key that is no point of the curve is refused.
///
/// Format: `[ephemeral_x25519_pub(32)] [IV(16)] [ciphertext] [HMAC-SHA256(32)]`
pub fn encrypt_packet(
    plaintext: &[u8],
    _sender_keys: &Keys,
    recipient_ed25519_pub: &[u8; 32],
    recipient_hash: &[u8; 16],
) -> (r: Result<Vec<u8>, CryptoError>)
    ensures
        (match (primitives::ed25519_montgomery(recipient_ed25519_pub@), r) {
            (None, Err(e)) => e == CryptoError::Encryption,
            (Some(k), Ok(m)) => exists|ephemeral: Seq<u8>, iv: Seq<u8>|
                ephemeral.len() == 32 && iv.len() == 16 && m@ == #[trigger] packet_sealed(
                    ephemeral,
                    k,
                    recipient_hash@,
                    iv,
                    plaintext@,
                ),
            _ => false,
        }),
        forall|seed: Seq<u8>|
            seed.len() == 32 && recipient_ed25519_pub@ == #[trigger] primitives::ed25519_public(seed)
                ==> (r matches Ok(m) && packet_opened(seed, recipient_hash@, m@) == Ok::<
                Seq<u8>,
                CryptoFault,
            >(plaintext@)),
{
    let (ephemeral, _) = generate_ephemeral_x25519();
    let iv: [u8; 16] = primitives::random_16();
    encrypt_packet_with(plaintext, recipient_ed25519_pub, recipient_hash, &ephemeral, &iv)
}

/// Encrypts a payload with the given ephemeral secret and IV.
pub fn encrypt_packet_with(
    plaintext: &[u8],
    recipient_ed25519_pub: &[u8; 32],
    recipient_hash: &[u8; 16],
    ephemeral: &[u8; 32],
    iv: &[u8; 16],
) -> (r: Result<Vec<u8>, CryptoError>)
    ensures
        (match (primitives::ed25519_montgomery(recipient_ed25519_pub@), r) {
            (None, Err(e)) => e == CryptoError::Encryption,
            (Some(k), Ok(m)) => m@ == packet_sealed(
                ephemeral@,
                k,
                recipient_hash@,
                iv@,
                plaintext@,
            ),
            _ => false,
        }),
        forall|seed: Seq<u8>|
            seed.len() == 32 && recipient_ed25519_pub@ == #[trigger] primitives::ed25519_public(seed)
                ==> (r matches Ok(m) && packet_opened(seed, recipient_hash@, m@) == Ok::<
                Seq<u8>,
                CryptoFault,
            >(plaintext@)),
{
    let recipient_public: [u8; 32] = match ed25519_pub_to_x25519(recipient_ed25519_pub) {
        Ok(k) => k,
        Err(e) => {
            return Err(e);
        },
    };
    let ephemeral_public: [u8; 32] = primitives::x25519_public_key(ephemeral);
    let shared: [u8; 32] = ecdh(*ephemeral, &recipient_public);
    let okm: Vec<u8> = hkdf::hkdf_sha256(
        32,
        shared.as_slice(),
        Some(recipient_hash.as_slice()),
        None,
    );
    let key: [u8; 32] = wire::read_32(okm.as_slice(), 0);
    assert(key@ =~= okm@);
    let t: Vec<u8> = Token::encrypt_with_iv(plaintext, &key, iv);
    let mut message: Vec<u8> = Vec::new();
    wire::push_all(&mut message, ephemeral_public.as_slice());
    wire::push_all(&mut message, t.as_slice());
    proof {
        assert(message@ =~= ephemeral_public@ + t@);
        assert(message@.subrange(0, 32) =~= ephemeral_public@);
        assert(message@.subrange(32, message@.len() as int) =~= t@);
        assert forall|seed: Seq<u8>|
            seed.len() == 32 && recipient_ed25519_pub@ == #[trigger] primitives::ed25519_public(
                seed,
            ) implies packet_opened(seed, recipient_hash@, message@) == Ok::<Seq<u8>, CryptoFault>(
            plaintext@,
        ) by {
            assert(x25519_scalar(seed).len() == 32);
            assert(recipient_public@ == primitives::x25519_public(x25519_scalar(seed)));
        }
    }
    Ok(message)
}

/// Decrypts a packet that [`encrypt_packet`] made.
pub fn decrypt_packet(
    encrypted: &[u8],
    recipient_keys: &Keys,
    recipient_hash: &[u8; 16],
) -> (r: Result<Vec<u8>, CryptoError>)
    ensures
        outcome(r) == packet_opened(recipient_keys.signing@, recipient_hash@, encrypted@),
{
    if encrypted.len() < 33 {
        return Err(CryptoError::Decryption("ciphertext too short".to_owned()));
    }
    let ephemeral_public: [u8; 32] = wire::read_32(encrypted, 0);
    let bytes: Vec<u8> = wire::copy_range(encrypted, 32, encrypted.len());
    let secret: [u8; 32] = ed25519_secret_to_x25519(&recipient_keys.signing);
    let shared: [u8; 32] = primitives::x25519_diffie_hellman(&secret, &ephemeral_public);
    let okm: Vec<u8> = hkdf::hkdf_sha256(
        32,
        shared.as_slice(),
        Some(recipient_hash.as_slice()),
        None,
    );
    let key: [u8; 32] = wire::read_32(okm.as_slice(), 0);
    assert(key@ =~= okm@);
    match Token::decrypt(bytes.as_slice(), &key) {
        Ok(p) => Ok(p),
        Err(e) => Err(CryptoError::Decryption(e.to_string())),
    }
}

/// The key of a shared secret is one block of HKDF without a context: the tag of the number
/// 1 under the tag of the secret under the salt, or under 32 zeros.
pub proof fn law_derived_key(shared: Seq<u8>, salt: Seq<u8>)
    ensures
        derived(shared, Some(salt)) == primitives::hmac_tag(
            primitives::hmac_tag(salt, shared),
            seq![1u8],
        ),
        derived(shared, None) == derived(shared, Some(Seq::new(32, |i: int| 0u8))),
{
}

/// Both ends of an exchange derive the same key, each from its own secret and the other's
/// public key.
pub proof fn law_both_ends_derive_one_key(
    ours: &[u8; 32],
    theirs: &[u8; 32],
    our_public: &[u8; 32],
    their_public: &[u8; 32],
    a: DerivedKey,
    b: DerivedKey,
)
    requires
        our_public@ == primitives::x25519_public(ours@),
        their_public@ == primitives::x25519_public(theirs@),
        call_ensures(DerivedKey::from_static, (ours, their_public), a),
        call_ensures(DerivedKey::from_static, (theirs, our_public), b),
    ensures
        a.key@ == b.key@,
{
    assert(theirs@.len() == 32);
}

/// The first half of a derived key signs, the second encrypts.
pub proof fn law_key_halves(k: &DerivedKey, f: Fernet, s: &[u8], e: &[u8])
    requires
        call_ensures(Fernet::from_derived_key, (k,), f),
        call_ensures(DerivedKey::sign_key, (k,), s),
        call_ensures(DerivedKey::enc_key, (k,), e),
    ensures
        f.sign_key@ == s@,
        f.enc_key@ == e@,
        s@ + e@ == k.key@,
{
    assert(s@ + e@ =~= k.key@);
}

/// What one key encrypts it decrypts; what is not tagged with the signing key is refused.
pub proof fn law_fernet_roundtrip(
    f: &Fernet,
    plaintext: &[u8],
    iv: &[u8; 16],
    t: Vec<u8>,
    bytes: &[u8],
    r: Result<Vec<u8>, CryptoError>,
    other: &[u8],
    refused: Result<Vec<u8>, CryptoError>,
)
    requires
        call_ensures(Fernet::encrypt_with_iv, (f, plaintext, iv), t),
        bytes@ == t@,
        call_ensures(Fernet::decrypt, (f, bytes), r),
        call_ensures(Fernet::decrypt, (f, other), refused),
    ensures
        r matches Ok(p) && p@ == plaintext@,
        t@.subrange(0, 16) == iv@,
        other@.len() < 49 ==> refused is Err,
        other@.len() >= 49 && other@.subrange(other@.len() - 32, other@.len() as int)
            != primitives::hmac_tag(f.sign_key@, other@.subrange(0, other@.len() - 32))
            ==> refused is Err,
{
    assert(t@.subrange(0, 16) =~= iv@);
    token::law_only_tagged_is_opened(f.sign_key@, f.enc_key@, other@);
}

/// What is encrypted for an identity, that identity decrypts, and the message begins with
/// the sender's ephemeral public key.
pub proof fn law_encrypted_for_is_decrypted(
    recipient: &Keys,
    public: &[u8; 32],
    hash: &[u8; 16],
    plaintext: &[u8],
    ephemeral: &[u8; 32],
    iv: &[u8; 16],
    message: Vec<u8>,
    bytes: &[u8],
    r: Result<Vec<u8>, CryptoError>,
)
    requires
        public@ == recipient.exchange(),
        hash@ == rns_address::rns_hash(recipient.identity()),
        call_ensures(Keys::encrypt_for_with, (public, hash, plaintext, ephemeral, iv), message),
        bytes@ == message@,
        call_ensures(Keys::decrypt_from, (recipient, bytes), r),
        primitives::x25519_public(ephemeral@).len() == 32,
    ensures
        r matches Ok(p) && p@ == plaintext@,
        message@.subrange(0, 32) == primitives::x25519_public(ephemeral@),
        message@.subrange(32, 48) == iv@,
{
    assert(recipient.encryption@.len() == 32);
    assert(message@.subrange(0, 32) =~= primitives::x25519_public(ephemeral@));
    assert(message@.subrange(32, 48) =~= iv@);
}

/// A message for an identity is bound to its address and to the exchange of its key with
/// the ephemeral one: it is opened only where it ends with the tag, under the first half of
/// the key derived from both, of all behind the ephemeral key.
pub proof fn law_unboxed_is_tagged(secret: Seq<u8>, own_hash: Seq<u8>, message: Seq<u8>)
    ensures
        unboxed(secret, own_hash, message) is Ok ==> {
            let n = message.len() as int;
            let key = primitives::hmac_tag(
                primitives::hmac_tag(
                    own_hash,
                    primitives::x25519_shared(secret, message.subrange(0, 32)),
                ),
                seq![1u8],
            );
            &&& n >= 81
            &&& message.subrange(n - 32, n) == primitives::hmac_tag(
                key.subrange(0, 16),
                message.subrange(32, n - 32),
            )
        },
        message.len() < 81 ==> unboxed(secret, own_hash, message) is Err,
{
    if message.len() >= 81 {
        let n = message.len() as int;
        let t = message.subrange(32, n);
        assert(t.subrange(t.len() - 32, t.len() as int) =~= message.subrange(n - 32, n));
        assert(t.subrange(0, t.len() - 32) =~= message.subrange(32, n - 32));
    }
}

/// A packet that is encrypted for an identity is decrypted with that identity's keys.
pub proof fn law_packet_is_decrypted(
    recipient: &Keys,
    public: &[u8; 32],
    hash: &[u8; 16],
    plaintext: &[u8],
    sender: &Keys,
    m: Result<Vec<u8>, CryptoError>,
    bytes: &[u8],
    r: Result<Vec<u8>, CryptoError>,
)
    requires
        public@ == recipient.identity(),
        call_ensures(encrypt_packet, (plaintext, sender, public, hash), m),
        m matches Ok(b) ==> bytes@ == b@,
        call_ensures(decrypt_packet, (bytes, recipient, hash), r),
    ensures
        m is Ok,
        r matches Ok(p) && p@ == plaintext@,
{
    assert(recipient.signing@.len() == 32);
}

/// A packet is sealed under the key that HKDF makes of the exchange, with the recipient's
/// hash as salt: its first half tags, and its second encrypts.
pub proof fn law_packet_seal(
    ephemeral: Seq<u8>,
    public: Seq<u8>,
    hash: Seq<u8>,
    iv: Seq<u8>,
    plaintext: Seq<u8>,
)
    ensures
        ({
            let key = hkdf::hkdf_output(
                32,
                primitives::x25519_shared(ephemeral, public),
                Some(hash),
                None,
            );
            let body = iv + primitives::cbc_ciphertext(key.subrange(16, 32), iv, plaintext);
            packet_sealed(ephemeral, public, hash, iv, plaintext) == primitives::x25519_public(
                ephemeral,
            ) + (body + primitives::hmac_tag(key.subrange(0, 16), body))
        }),
{
}

/// The scalar of a seed has its low three bits clear, its highest bit clear and the next
/// one set, and is otherwise the first half of the seed's SHA-512 digest.
pub proof fn law_scalar_is_clamped(seed: &[u8; 32], scalar: [u8; 32])
    requires
        call_ensures(ed25519_secret_to_x25519, (seed,), scalar),
        primitives::sha512_digest(seed@).len() == 64,
    ensures
        scalar@[0] & 7 == 0,
        scalar@[31] & 0x80 == 0,
        scalar@[31] & 0x40 == 0x40,
        forall|i: int| 0 < i < 31 ==> #[trigger] scalar@[i] == primitives::sha512_digest(seed@)[i],
{
}

} // verus!
