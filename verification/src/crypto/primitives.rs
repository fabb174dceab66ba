//! The cryptographic functions that come from other crates.
//!
//! Each hash, cipher and signature is named by an uninterpreted function of its
//! input bytes; the wrappers say that the crate computes that function, and add the
//! few algebraic facts (a cipher undoes itself, a signature is accepted, both sides
//! of a key exchange agree) on which the rest of the library is built.

use aes::cipher::block_padding::Pkcs7;
use aes::cipher::{BlockDecryptMut, BlockEncryptMut, KeyIvInit};
use ed25519_dalek::{Signer, Verifier};
use hmac::Mac;
use rand::RngCore;
use sha2::Digest;
use crate::wire;
use vstd::prelude::*;
use zeroize::Zeroize;

verus! {

/// The SHA-256 digest of a byte string.
pub uninterp spec fn sha256_digest(data: Seq<u8>) -> Seq<u8>;

/// The SHA-512 digest of a byte string.
pub uninterp spec fn sha512_digest(data: Seq<u8>) -> Seq<u8>;

/// The BLAKE3 digest of a byte string.
pub uninterp spec fn blake3_digest(data: Seq<u8>) -> Seq<u8>;

/// The HMAC-SHA256 tag of a byte string under a key.
pub uninterp spec fn hmac_tag(key: Seq<u8>, data: Seq<u8>) -> Seq<u8>;

/// The AES-128-CBC ciphertext of a PKCS#7-padded message.
pub uninterp spec fn cbc_ciphertext(key: Seq<u8>, iv: Seq<u8>, plaintext: Seq<u8>) -> Seq<u8>;

/// The message inside an AES-128-CBC ciphertext, where the padding is sound.
pub uninterp spec fn cbc_plaintext(
    key: Seq<u8>,
    iv: Seq<u8>,
    ciphertext: Seq<u8>,
) -> Option<Seq<u8>>;

/// The Ed25519 public key of a 32-byte seed.
pub uninterp spec fn ed25519_public(seed: Seq<u8>) -> Seq<u8>;

/// The Ed25519 signature of a message under a 32-byte seed.
pub uninterp spec fn ed25519_signature(seed: Seq<u8>, message: Seq<u8>) -> Seq<u8>;

/// Whether a public key is well formed and accepts a signature of a message.
pub uninterp spec fn ed25519_accepts(
    public: Seq<u8>,
    message: Seq<u8>,
    signature: Seq<u8>,
) -> bool;

/// The X25519 form of an Ed25519 public key, where that key is a point of the curve.
pub uninterp spec fn ed25519_montgomery(public: Seq<u8>) -> Option<Seq<u8>>;

/// The X25519 public key of a 32-byte secret.
pub uninterp spec fn x25519_public(secret: Seq<u8>) -> Seq<u8>;

/// The secret that X25519 derives from one side's secret and the other side's public key.
pub uninterp spec fn x25519_shared(secret: Seq<u8>, public: Seq<u8>) -> Seq<u8>;

/// How many bytes PKCS#7 padding makes of an `n`-byte message: at least one byte is
/// added, and the total is a whole number of 16-byte blocks.
pub open spec fn padded_len(n: nat) -> nat {
    (n / 16 + 1) * 16
}

/// A 32-byte scalar with the low three bits of its first byte cleared, and in its
/// last byte the top bit cleared and the next one set.
pub open spec fn clamped(scalar: Seq<u8>) -> Seq<u8> {
    scalar.update(0, scalar[0] & 248).update(31, (scalar[31] & 127) | 64)
}

/// Whether `key` is the X25519 public key of the clamped first half of the 64-byte
/// SHA-512 digest of an Ed25519 seed.
pub open spec fn is_exchange_key(seed: Seq<u8>, key: Option<Seq<u8>>) -> bool {
    &&& sha512_digest(seed).len() == 64
    &&& key == Some(x25519_public(clamped(sha512_digest(seed).subrange(0, 32))))
}

/// `sha2::Sha256::digest`: the result is the SHA-256 digest of `data`.
#[verifier::external_body]
pub(crate) fn sha256(data: &[u8]) -> (digest: [u8; 32])
    ensures
        digest@ == sha256_digest(data@),
{
    sha2::Sha256::digest(data).into()
}

/// `sha2::Sha512::digest`: the result is the SHA-512 digest of `data`.
#[verifier::external_body]
pub(crate) fn sha512(data: &[u8]) -> (digest: [u8; 64])
    ensures
        digest@ == sha512_digest(data@),
{
    sha2::Sha512::digest(data).into()
}

/// `blake3::hash`: the result is the 32-byte BLAKE3 digest of `data`.
#[verifier::external_body]
pub(crate) fn blake3_hash(data: &[u8]) -> (digest: [u8; 32])
    ensures
        digest@ == blake3_digest(data@),
{
    *blake3::hash(data).as_bytes()
}

/// `hmac::Hmac<Sha256>`, keyed, fed `data` and finalized: the result is the
/// HMAC-SHA256 tag of `data` under `key`, which may have any length.
#[verifier::external_body]
pub(crate) fn hmac_sha256(key: &[u8], data: &[u8]) -> (tag: [u8; 32])
    ensures
        tag@ == hmac_tag(key@, data@),
{
    let mut mac =
        <hmac::Hmac<sha2::Sha256> as Mac>::new_from_slice(key).expect("any key length");
    mac.update(data);
    mac.finalize().into_bytes().into()
}

/// `hmac::Mac::verify_slice`: true exactly when `tag` is the whole HMAC-SHA256 tag of
/// `data` under `key`.
#[verifier::external_body]
pub(crate) fn hmac_sha256_verify(key: &[u8], data: &[u8], tag: &[u8]) -> (ok: bool)
    ensures
        ok == (tag@ == hmac_tag(key@, data@)),
{
    let mut mac =
        <hmac::Hmac<sha2::Sha256> as Mac>::new_from_slice(key).expect("any key length");
    mac.update(data);
    mac.verify_slice(tag).is_ok()
}

/// `hkdf::Hkdf<Sha256>::new` with a salt, then `expand` to one 32-byte block: the
/// tag of `info` and the block number 1, under the tag of `ikm` under `salt`.
#[verifier::external_body]
pub(crate) fn hkdf_block(salt: &[u8], ikm: &[u8], info: &[u8]) -> (okm: [u8; 32])
    ensures
        okm@ == hmac_tag(hmac_tag(salt@, ikm@), info@ + seq![1u8]),
{
    let mut okm = [0u8; 32];
    hkdf::Hkdf::<sha2::Sha256>::new(Some(salt), ikm).expand(info, &mut okm).expect("one block");
    okm
}

/// `cbc::Encryptor<Aes128>::encrypt_padded_vec_mut` with PKCS#7 padding: the
/// ciphertext fills whole blocks, and decrypting it gives the message back.
#[verifier::external_body]
pub(crate) fn cbc_encrypt(key: &[u8; 16], iv: &[u8; 16], plaintext: &[u8]) -> (ct: Vec<u8>)
    ensures
        ct@ == cbc_ciphertext(key@, iv@, plaintext@),
        ct@.len() == padded_len(plaintext@.len()),
        cbc_plaintext(key@, iv@, ct@) == Some(plaintext@),
{
    cbc::Encryptor::<aes::Aes128>::new(key.into(), iv.into())
        .encrypt_padded_vec_mut::<Pkcs7>(plaintext)
}

/// `cbc::Decryptor<Aes128>::decrypt_padded_vec_mut` with PKCS#7 padding: the message,
/// or nothing where the length or the padding is wrong.
#[verifier::external_body]
pub(crate) fn cbc_decrypt(key: &[u8; 16], iv: &[u8; 16], ct: &[u8]) -> (plaintext: Option<Vec<u8>>)
    ensures
        wire::bytes_view(plaintext) == cbc_plaintext(key@, iv@, ct@),
{
    cbc::Decryptor::<aes::Aes128>::new(key.into(), iv.into())
        .decrypt_padded_vec_mut::<Pkcs7>(ct)
        .ok()
}

/// `ed25519_dalek::SigningKey::verifying_key`: the public key of `seed`.
#[verifier::external_body]
pub(crate) fn ed25519_public_key(seed: &[u8; 32]) -> (public: [u8; 32])
    ensures
        public@ == ed25519_public(seed@),
{
    ed25519_dalek::SigningKey::from_bytes(seed).verifying_key().to_bytes()
}

/// `ed25519_dalek::SigningKey::sign`: the signature of `message`, which the public key
/// of `seed` accepts.
#[verifier::external_body]
pub(crate) fn ed25519_sign(seed: &[u8; 32], message: &[u8]) -> (signature: [u8; 64])
    ensures
        signature@ == ed25519_signature(seed@, message@),
        ed25519_accepts(ed25519_public(seed@), message@, signature@),
{
    ed25519_dalek::SigningKey::from_bytes(seed).sign(message).to_bytes()
}

/// `ed25519_dalek::VerifyingKey::verify`: whether `public` is a key and accepts
/// `signature` as one of `message`.
#[verifier::external_body]
pub(crate) fn ed25519_verify(public: &[u8; 32], message: &[u8], signature: &[u8; 64]) -> (ok: bool)
    ensures
        ok == ed25519_accepts(public@, message@, signature@),
{
    match ed25519_dalek::VerifyingKey::from_bytes(public) {
        Ok(key) => key.verify(message, &ed25519_dalek::Signature::from_bytes(signature)).is_ok(),
        Err(_) => false,
    }
}

/// `ed25519_dalek::VerifyingKey::to_montgomery`: the X25519 form of `public`, where
/// `public` is a point of the curve. For the public key of a seed it is the X25519
/// public key of the clamped first half of the seed's 64-byte SHA-512 digest.
#[verifier::external_body]
pub(crate) fn ed25519_to_montgomery(public: &[u8; 32]) -> (converted: Option<[u8; 32]>)
    ensures
        wire::key_view(converted) == ed25519_montgomery(public@),
        forall|seed: Seq<u8>|
            seed.len() == 32 && public@ == #[trigger] ed25519_public(seed) ==> is_exchange_key(
                seed,
                wire::key_view(converted),
            ),
{
    match ed25519_dalek::VerifyingKey::from_bytes(public) {
        Ok(key) => Some(key.to_montgomery().to_bytes()),
        Err(_) => None,
    }
}

/// `x25519_dalek::PublicKey::from` of a `StaticSecret`: the public key of `secret`.
#[verifier::external_body]
pub(crate) fn x25519_public_key(secret: &[u8; 32]) -> (public: [u8; 32])
    ensures
        public@ == x25519_public(secret@),
{
    x25519_dalek::PublicKey::from(&x25519_dalek::StaticSecret::from(*secret)).to_bytes()
}

/// `x25519_dalek::StaticSecret::diffie_hellman`: the shared secret. Where `public`
/// belongs to another secret, that side gets the same value from our public key.
#[verifier::external_body]
pub(crate) fn x25519_diffie_hellman(secret: &[u8; 32], public: &[u8; 32]) -> (shared: [u8; 32])
    ensures
        shared@ == x25519_shared(secret@, public@),
        forall|other: Seq<u8>|
            other.len() == 32 && public@ == #[trigger] x25519_public(other) ==> shared@
                == x25519_shared(other, x25519_public(secret@)),
{
    x25519_dalek::StaticSecret::from(*secret)
        .diffie_hellman(&x25519_dalek::PublicKey::from(*public))
        .to_bytes()
}

/// `rand::random` of a 64-bit number. Nothing is known of the outcome.
#[verifier::external_body]
pub(crate) fn random_u64() -> (n: u64) {
    rand::random()
}

/// `rand::random` of 16 bytes. Nothing is known of the outcome.
#[verifier::external_body]
pub(crate) fn random_id() -> (out: [u8; 16]) {
    rand::random()
}

/// `getrandom::getrandom` on `n` bytes. Nothing is known of the outcome but its length.
#[verifier::external_body]
pub(crate) fn system_random(n: usize) -> (out: Vec<u8>)
    requires
        n <= isize::MAX,
    ensures
        out@.len() == n,
{
    let mut out = vec![0u8; n];
    getrandom::getrandom(&mut out).expect("getrandom");
    out
}

/// `rand::rngs::OsRng::fill_bytes` on 32 bytes. Nothing is known of the outcome.
#[verifier::external_body]
pub(crate) fn random_32() -> (out: [u8; 32]) {
    let mut out = [0u8; 32];
    rand::rngs::OsRng.fill_bytes(&mut out);
    out
}

/// `rand::rngs::OsRng::fill_bytes` on 16 bytes. Nothing is known of the outcome.
#[verifier::external_body]
pub(crate) fn os_random_16() -> (out: [u8; 16]) {
    let mut out = [0u8; 16];
    rand::rngs::OsRng.fill_bytes(&mut out);
    out
}

/// `rand::rngs::ThreadRng::fill_bytes` on 16 bytes. Nothing is known of the outcome.
#[verifier::external_body]
pub(crate) fn random_16() -> (out: [u8; 16]) {
    let mut out = [0u8; 16];
    rand::thread_rng().fill_bytes(&mut out);
    out
}

/// `zeroize::Zeroize::zeroize` on an array of bytes: all of them become zero.
#[verifier::external_body]
pub(crate) fn wipe<const N: usize>(bytes: &mut [u8; N])
    ensures
        final(bytes)@ == Seq::new(N as nat, |i: int| 0u8),
    opens_invariants none
    no_unwind
{
    bytes.zeroize();
}

} // verus!
