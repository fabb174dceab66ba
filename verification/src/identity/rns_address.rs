//! The 16-byte address that the wire formats use.

use crate::crypto::primitives;
use crate::identity::error::IdentityError;
use crate::text;
use crate::wire;
use vstd::prelude::*;

verus! {

/// A 16-byte address: the truncated SHA-256 digest of a public key.
///
/// It is a locator; identities are verified with the full public key.
#[derive(Clone, Copy, PartialEq, Eq, Hash, PartialOrd, Ord, Debug)]
pub struct RnsAddress(pub [u8; 16]);

impl View for RnsAddress {
    type V = Seq<u8>;

    open spec fn view(&self) -> Seq<u8> {
        self.0@
    }
}

/// The address of a public key.
pub open spec fn rns_hash(key: Seq<u8>) -> Seq<u8> {
    primitives::sha256_digest(key).subrange(0, 16)
}

impl RnsAddress {
    /// Derives the address of an Ed25519 public key: the first half of its SHA-256 digest.
    pub fn from_identity_key(key: &[u8; 32]) -> (addr: Self)
        ensures
            addr@ == rns_hash(key@),
    {
        RnsAddress(wire::read_16(primitives::sha256(key.as_slice()).as_slice(), 0))
    }

    /// Derives the address of a full public key (X25519 key, then Ed25519 key).
    pub fn from_full_key(key: &[u8; 64]) -> (addr: Self)
        ensures
            addr@ == rns_hash(key@),
    {
        RnsAddress(wire::read_16(primitives::sha256(key.as_slice()).as_slice(), 0))
    }

    pub fn as_bytes(&self) -> (bytes: &[u8; 16])
        ensures
            bytes@ == self@,
            *bytes == self.0,
    {
        &self.0
    }

    pub fn to_vec(&self) -> (bytes: Vec<u8>)
        ensures
            bytes@ == self@,
    {
        let bytes: Vec<u8> = wire::copy_range(self.0.as_slice(), 0, 16);
        assert(bytes@ =~= self@);
        bytes
    }

    /// Takes an address from exactly 16 bytes.
    pub fn from_bytes(bytes: &[u8]) -> (r: Result<Self, IdentityError>)
        ensures
            (match r {
                Ok(a) => a@ == bytes@,
                Err(e) => bytes@.len() != 16 && (e matches IdentityError::InvalidLength {
                    name,
                    expected,
                    got,
                } && name@ == "RnsAddress"@ && expected == 16 && got == bytes@.len()),
            }),
    {
        if bytes.len() != 16 {
            return Err(
                IdentityError::InvalidLength {
                    name: "RnsAddress",
                    expected: 16,
                    got: bytes.len(),
                },
            );
        }
        let a: [u8; 16] = wire::read_16(bytes, 0);
        assert(a@ =~= bytes@);
        Ok(RnsAddress(a))
    }

    /// The address as 32 hexadecimal digits.
    pub fn to_string(&self) -> (s: String)
        ensures
            s@ == text::hex_text(self@),
    {
        text::hex_encode(self.0.as_slice())
    }

    /// Reads an address from hexadecimal text.
    pub fn try_from(s: &str) -> (r: Result<Self, IdentityError>)
        ensures
            (match r {
                Ok(a) => text::hex_bytes(vstd::utf8::encode_utf8(s@)) == Some(a@),
                Err(IdentityError::Serde(m)) => text::hex_fault(s@) == Some(m@),
                Err(e) => text::hex_bytes(vstd::utf8::encode_utf8(s@)) matches Some(b) && b.len() != 16 && (
                e matches IdentityError::InvalidLength { name, expected, got } && name@
                    == "RnsAddress"@ && expected == 16 && got == b.len()),
            }),
    {
        match text::hex_decode(s) {
            Ok(bytes) => RnsAddress::from_bytes(bytes.as_slice()),
            Err(e) => Err(IdentityError::Serde(e)),
        }
    }

    /// Whether two addresses are the same.
    pub fn same(&self, other: &RnsAddress) -> (r: bool)
        ensures
            r <==> self@ == other@,
    {
        wire::same_bytes(self.0.as_slice(), other.0.as_slice())
    }
}

/// An address is read back from its text and from its bytes.
pub proof fn law_address_text_roundtrip(
    a: &RnsAddress,
    s: String,
    t: &str,
    r: Result<RnsAddress, IdentityError>,
    b: &[u8],
    q: Result<RnsAddress, IdentityError>,
)
    requires
        call_ensures(RnsAddress::to_string, (a,), s),
        t@ == s@,
        call_ensures(RnsAddress::try_from, (t,), r),
        b@ == a@,
        call_ensures(RnsAddress::from_bytes, (b,), q),
    ensures
        r matches Ok(x) && x@ == a@,
        q matches Ok(x) && x@ == a@,
        s@.len() == 32,
{
    text::law_hex_roundtrip(a@);
}

} // verus!
