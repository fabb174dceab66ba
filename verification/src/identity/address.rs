//! The 32-byte internal address.

use crate::crypto::primitives;
use crate::identity::error::IdentityError;
use crate::text;
use crate::wire;
use vstd::prelude::*;

verus! {

/// A 32-byte address: the BLAKE3 digest of a public key.
#[derive(Clone, Copy, PartialEq, Eq, Hash, PartialOrd, Ord, Debug)]
pub struct Address(pub [u8; 32]);

impl View for Address {
    type V = Seq<u8>;

    open spec fn view(&self) -> Seq<u8> {
        self.0@
    }
}

impl Address {
    /// Derives the address of an Ed25519 public key.
    pub fn from_identity_key(key: &[u8; 32]) -> (addr: Self)
        ensures
            addr@ == primitives::blake3_digest(key@),
    {
        Address(primitives::blake3_hash(key.as_slice()))
    }

    pub fn as_bytes(&self) -> (bytes: &[u8; 32])
        ensures
            bytes@ == self@,
            *bytes == self.0,
    {
        &self.0
    }

    pub fn to_vec(&self) -> (bytes: Vec<u8>)
        ensures
            bytes@ == self@,
    {
        let bytes: Vec<u8> = wire::copy_range(self.0.as_slice(), 0, 32);
        assert(bytes@ =~= self@);
        bytes
    }

    /// Takes an address from exactly 32 bytes.
    pub fn from_bytes(bytes: &[u8]) -> (r: Result<Self, IdentityError>)
        ensures
            (match r {
                Ok(a) => a@ == bytes@,
                Err(e) => bytes@.len() != 32 && (e matches IdentityError::InvalidLength {
                    name,
                    expected,
                    got,
                } && name@ == "Address"@ && expected == 32 && got == bytes@.len()),
            }),
    {
        if bytes.len() != 32 {
            return Err(
                IdentityError::InvalidLength {
                    name: "Address",
                    expected: 32,
                    got: bytes.len(),
                },
            );
        }
        let a: [u8; 32] = wire::read_32(bytes, 0);
        assert(a@ =~= bytes@);
        Ok(Address(a))
    }

    /// The address as 64 hexadecimal digits.
    pub fn to_string(&self) -> (s: String)
        ensures
            s@ == text::hex_text(self@),
    {
        text::hex_encode(self.0.as_slice())
    }

    /// Reads an address from hexadecimal text.
    pub fn try_from(s: &str) -> (r: Result<Self, IdentityError>)
        ensures
            (match r {
                Ok(a) => text::hex_bytes(vstd::utf8::encode_utf8(s@)) == Some(a@),
                Err(IdentityError::Serde(m)) => text::hex_fault(s@) == Some(m@),
                Err(e) => text::hex_bytes(vstd::utf8::encode_utf8(s@)) matches Some(b) && b.len() != 32 && (
                e matches IdentityError::InvalidLength { name, expected, got } && name@
                    == "Address"@ && expected == 32 && got == b.len()),
            }),
    {
        match text::hex_decode(s) {
            Ok(bytes) => Address::from_bytes(bytes.as_slice()),
            Err(e) => Err(IdentityError::Serde(e)),
        }
    }
}

/// An address is read back from its text and from its bytes.
pub proof fn law_address_text_roundtrip(
    a: &Address,
    s: String,
    t: &str,
    r: Result<Address, IdentityError>,
    b: &[u8],
    q: Result<Address, IdentityError>,
)
    requires
        call_ensures(Address::to_string, (a,), s),
        t@ == s@,
        call_ensures(Address::try_from, (t,), r),
        b@ == a@,
        call_ensures(Address::from_bytes, (b,), q),
    ensures
        r matches Ok(x) && x@ == a@,
        q matches Ok(x) && x@ == a@,
        s@.len() == 64,
{
    text::law_hex_roundtrip(a@);
}

} // verus!
