//! Proofs: a message digest and a signature of the message.
//!
//! ```text
//! [packet_hash: 32 bytes SHA-256] [Ed25519 signature: 64 bytes]
//! ```

use crate::crypto::primitives;
use crate::identity::Keys;
use crate::text;
use crate::wire;
use vstd::prelude::*;

verus! {

/// Size of a proof on the wire.
pub const PROOF_LEN: usize = 96;

/// Size of the digest.
pub const PROOF_HASH_LEN: usize = 32;

/// Size of the signature.
pub const PROOF_SIG_LEN: usize = 64;

#[derive(Debug, PartialEq, Eq, Clone)]
pub enum ProofError {
    InvalidFormat(String),
    Serialization(String),
    SignatureMismatch,
    HashMismatch,
}

impl ProofError {
    /// The text of the error.
    pub open spec fn message(&self) -> Seq<char> {
        match *self {
            ProofError::InvalidFormat(m) => "invalid proof format: "@ + m@,
            ProofError::Serialization(m) => "proof serialization failed: "@ + m@,
            ProofError::SignatureMismatch => "signature mismatch"@,
            ProofError::HashMismatch => "packet hash mismatch"@,
        }
    }

    /// The message that describes the error.
    pub fn to_string(&self) -> (out: String)
        ensures
            out@ == self.message(),
    {
        match self {
            ProofError::InvalidFormat(m) => text::join("invalid proof format: ", m.as_str()),
            ProofError::Serialization(m) => text::join("proof serialization failed: ", m.as_str()),
            ProofError::SignatureMismatch => "signature mismatch".to_owned(),
            ProofError::HashMismatch => "packet hash mismatch".to_owned(),
        }
    }
}

/// A proof: the digest of a message and a signature of it.
#[derive(Debug, Clone, Copy, PartialEq, Eq)]
pub struct Proof {
    pub packet_hash: [u8; 32],
    pub signature: [u8; 64],
}

/// What is wrong with the length of a proof.
pub open spec fn length_fault(n: nat) -> Seq<char> {
    "expected 96 bytes, got "@ + text::decimal(n)
}

/// Whether a proof shows that the holder of a public key signed a message.
pub open spec fn proves(public: Seq<u8>, message: Seq<u8>, hash: Seq<u8>, signature: Seq<u8>) -> bool {
    hash == primitives::sha256_digest(message) && primitives::ed25519_accepts(
        public,
        message,
        signature,
    )
}

impl Proof {
    /// The bytes of the proof.
    pub open spec fn bytes(&self) -> Seq<u8> {
        self.packet_hash@ + self.signature@
    }

    /// Serializes the proof.
    pub fn to_bytes(&self) -> (buf: Vec<u8>)
        ensures
            buf@ == self.bytes(),
            buf@.len() == 96,
    {
        let mut buf: Vec<u8> = Vec::new();
        wire::push_all(&mut buf, self.packet_hash.as_slice());
        wire::push_all(&mut buf, self.signature.as_slice());
        assert(buf@ =~= self.bytes());
        buf
    }

    /// Parses a proof, which takes exactly 96 bytes.
    pub fn from_bytes(bytes: &[u8]) -> (r: Result<Self, ProofError>)
        ensures
            (match r {
                Ok(p) => bytes@.len() == 96 && p.bytes() == bytes@ && p.packet_hash@
                    == bytes@.subrange(0, 32) && p.signature@ == bytes@.subrange(32, 96),
                Err(ProofError::InvalidFormat(m)) => bytes@.len() != 96 && m@ == length_fault(
                    bytes@.len(),
                ),
                Err(_) => false,
            }),
    {
        if bytes.len() != 96 {
            return Err(
                ProofError::InvalidFormat(
                    text::join(
                        "expected 96 bytes, got ",
                        text::to_decimal(bytes.len() as u64).as_str(),
                    ),
                ),
            );
        }
        let p: Proof = Proof {
            packet_hash: wire::read_32(bytes, 0),
            signature: wire::read_64(bytes, 32),
        };
        assert(p.bytes() =~= bytes@);
        Ok(p)
    }
}

/// A proof is read back from its bytes: they determine it.
pub proof fn law_proof_roundtrip(p: Proof)
    ensures
        p.bytes().len() == 96,
        p.bytes().subrange(0, 32) == p.packet_hash@,
        p.bytes().subrange(32, 96) == p.signature@,
{
    assert(p.bytes().subrange(0, 32) =~= p.packet_hash@);
    assert(p.bytes().subrange(32, 96) =~= p.signature@);
}

/// Makes a proof of a message: its SHA-256 digest, and its signature. The holder's
/// public key accepts it.
pub fn generate_proof(keys: &Keys, message: &[u8]) -> (p: Proof)
    ensures
        p.packet_hash@ == primitives::sha256_digest(message@),
        p.signature@ == primitives::ed25519_signature(keys.signing@, message@),
        proves(keys.identity(), message@, p.packet_hash@, p.signature@),
{
    Proof { packet_hash: primitives::sha256(message), signature: keys.sign(message) }
}

/// Verifies a proof against the public key of `keys`: first the digest, then the
/// signature.
pub fn verify_proof(keys: &Keys, message: &[u8], proof: &Proof) -> (r: Result<(), ProofError>)
    ensures
        r == (if proof.packet_hash@ != primitives::sha256_digest(message@) {
            Err::<(), ProofError>(ProofError::HashMismatch)
        } else if !primitives::ed25519_accepts(keys.identity(), message@, proof.signature@) {
            Err(ProofError::SignatureMismatch)
        } else {
            Ok(())
        }),
{
    let public: [u8; 32] = keys.identity_key_bytes();
    verify_proof_with_public_key(&public, message, proof)
}

/// Verifies a proof against an Ed25519 public key.
pub fn verify_proof_with_public_key(public: &[u8; 32], message: &[u8], proof: &Proof) -> (r: Result<
    (),
    ProofError,
>)
    ensures
        r == (if proof.packet_hash@ != primitives::sha256_digest(message@) {
            Err::<(), ProofError>(ProofError::HashMismatch)
        } else if !primitives::ed25519_accepts(public@, message@, proof.signature@) {
            Err(ProofError::SignatureMismatch)
        } else {
            Ok(())
        }),
{
    let digest: [u8; 32] = primitives::sha256(message);
    if !wire::same_bytes(digest.as_slice(), proof.packet_hash.as_slice()) {
        return Err(ProofError::HashMismatch);
    }
    if primitives::ed25519_verify(public, message, &proof.signature) {
        Ok(())
    } else {
        Err(ProofError::SignatureMismatch)
    }
}

} // verus!
