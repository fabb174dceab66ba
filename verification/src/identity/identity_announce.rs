//! Signed identity announcements.

use crate::clock;
use crate::codec;
use crate::crypto::primitives;
use crate::identity::error::IdentityError;
use crate::identity::keys::Keys;
use crate::wire;
use vstd::prelude::*;

verus! {

/// How far, in seconds, an announcement may be from the local clock.
pub const MAX_CLOCK_DRIFT: u64 = 300;

/// What is signed: both public keys and the time.
pub open spec fn announced(identity_key: Seq<u8>, encryption_key: Seq<u8>, created_at: u64) -> Seq<
    u8,
> {
    identity_key + encryption_key + wire::le(created_at as nat, 8)
}

/// A number of seconds as a signed 64-bit value.
pub open spec fn signed_secs(x: u64) -> int {
    if x < 0x8000_0000_0000_0000 {
        x as int
    } else {
        x - 0x1_0000_0000_0000_0000
    }
}

/// The difference of two times, wrapped to a signed 64-bit value.
pub open spec fn drift(created_at: u64, now: u64) -> int {
    let d = signed_secs(created_at) - signed_secs(now);
    if d > i64::MAX {
        d - 0x1_0000_0000_0000_0000
    } else if d < i64::MIN {
        d + 0x1_0000_0000_0000_0000
    } else {
        d
    }
}

/// A signed identity announcement, for the exchange of keys on the network.
#[derive(Clone, Copy, Debug)]
pub struct IdentityAnnounce {
    pub identity_key: [u8; 32],
    pub encryption_key: [u8; 32],
    pub created_at: u64,
    pub signature: [u8; 64],
}

impl IdentityAnnounce {
    /// Whether the announced identity key signed the announcement.
    pub open spec fn authentic(&self) -> bool {
        primitives::ed25519_accepts(
            self.identity_key@,
            announced(self.identity_key@, self.encryption_key@, self.created_at),
            self.signature@,
        )
    }

    /// The bytes of the announcement.
    pub open spec fn record(&self) -> Seq<u8> {
        codec::signed_record(
            self.identity_key@,
            self.encryption_key@,
            self.created_at,
            self.signature@,
        )
    }

    /// Announces `keys` at the present time.
    pub fn sign(keys: &Keys) -> (a: Self)
        ensures
            a.identity_key@ == keys.identity(),
            a.encryption_key@ == keys.exchange(),
            a.signature@ == primitives::ed25519_signature(
                keys.signing@,
                announced(keys.identity(), keys.exchange(), a.created_at),
            ),
            a.authentic(),
    {
        IdentityAnnounce::sign_at(keys, clock::unix_secs())
    }

    /// Announces `keys` at the given time.
    pub fn sign_at(keys: &Keys, created_at: u64) -> (a: Self)
        ensures
            a.identity_key@ == keys.identity(),
            a.encryption_key@ == keys.exchange(),
            a.created_at == created_at,
            a.signature@ == primitives::ed25519_signature(
                keys.signing@,
                announced(keys.identity(), keys.exchange(), created_at),
            ),
            a.authentic(),
    {
        let identity_key: [u8; 32] = keys.identity_key_bytes();
        let encryption_key: [u8; 32] = keys.encryption_key();
        let payload: Vec<u8> = IdentityAnnounce::payload(
            &identity_key,
            &encryption_key,
            created_at,
        );
        let signature: [u8; 64] = keys.sign(payload.as_slice());
        IdentityAnnounce { identity_key, encryption_key, created_at, signature }
    }

    pub fn to_bytes(&self) -> (bytes: Vec<u8>)
        ensures
            bytes@ == self.record(),
    {
        codec::encode_signed(
            self.identity_key.as_slice(),
            self.encryption_key.as_slice(),
            self.created_at,
            self.signature.as_slice(),
        )
    }

    /// Reads an announcement. Both keys take 32 bytes and the signature 64. What is wrong
    /// with other bytes is said by the decoder.
    pub fn from_bytes(data: &[u8]) -> (r: Result<Self, IdentityError>)
        ensures
            (match codec::sized_fields(data@) {
                Some((ik, ek, at, sig)) => r matches Ok(a) && a.identity_key@ == ik
                    && a.encryption_key@ == ek && a.created_at == at && a.signature@ == sig,
                None => r matches Err(IdentityError::Serde(m)) && (codec::wide() ==> m@
                    == codec::signed_complaint(data@)),
            }),
    {
        match codec::decode_signed(data) {
            Ok((identity_key, encryption_key, created_at, signature)) => Ok(
                IdentityAnnounce { identity_key, encryption_key, created_at, signature },
            ),
            Err(e) => Err(IdentityError::Serde(e)),
        }
    }

    /// What verifying the announcement gives at a time: the signature has to be the
    /// announced key's, and the time no more than [`MAX_CLOCK_DRIFT`] seconds away.
    pub open spec fn verdict(&self, now: u64) -> Result<(), IdentityError> {
        if !self.authentic() {
            Err(IdentityError::SignatureMismatch)
        } else if -300 <= drift(self.created_at, now) <= 300 {
            Ok(())
        } else {
            Err(
                IdentityError::ClockDrift {
                    delta_secs: drift(self.created_at, now) as i64,
                    threshold_secs: MAX_CLOCK_DRIFT,
                },
            )
        }
    }

    /// Verifies the announcement against the present time. Whatever the time is, one
    /// that the announced key did not sign is a signature mismatch.
    pub fn verify(&self) -> (r: Result<(), IdentityError>)
        ensures
            exists|now: u64| r == #[trigger] self.verdict(now),
            !self.authentic() <==> r == Err::<(), IdentityError>(IdentityError::SignatureMismatch),
    {
        let now: u64 = clock::unix_secs();
        let r: Result<(), IdentityError> = self.verify_at(now);
        assert(r == self.verdict(now));
        r
    }

    /// Verifies the signature, then that the announcement is no more than
    /// [`MAX_CLOCK_DRIFT`] seconds away from `now`.
    pub fn verify_at(&self, now: u64) -> (r: Result<(), IdentityError>)
        ensures
            r == self.verdict(now),
    {
        let payload: Vec<u8> = IdentityAnnounce::payload(
            &self.identity_key,
            &self.encryption_key,
            self.created_at,
        );
        if !primitives::ed25519_verify(&self.identity_key, payload.as_slice(), &self.signature) {
            return Err(IdentityError::SignatureMismatch);
        }
        let delta: i64 = clock::signed_difference(self.created_at, now);
        if delta < -300 || delta > 300 {
            return Err(
                IdentityError::ClockDrift { delta_secs: delta, threshold_secs: MAX_CLOCK_DRIFT },
            );
        }
        Ok(())
    }

    pub fn identity_key(&self) -> (key: &[u8; 32])
        ensures
            *key == self.identity_key,
    {
        &self.identity_key
    }

    pub fn encryption_key(&self) -> (key: &[u8; 32])
        ensures
            *key == self.encryption_key,
    {
        &self.encryption_key
    }

    pub fn created_at(&self) -> (at: u64)
        ensures
            at == self.created_at,
    {
        self.created_at
    }

    /// The bytes that are signed.
    fn payload(ik: &[u8; 32], ek: &[u8; 32], ts: u64) -> (buf: Vec<u8>)
        ensures
            buf@ == announced(ik@, ek@, ts),
    {
        let mut buf: Vec<u8> = Vec::new();
        wire::push_all(&mut buf, ik.as_slice());
        wire::push_all(&mut buf, ek.as_slice());
        wire::push_le(&mut buf, ts, 8);
        assert(buf@ =~= announced(ik@, ek@, ts));
        buf
    }
}

/// The bytes of an announcement hold its fields.
pub proof fn law_announce_roundtrip(a: IdentityAnnounce)
    ensures
        codec::sized_fields(a.record()) == Some(
            (a.identity_key@, a.encryption_key@, a.created_at as nat, a.signature@),
        ),
{
    codec::lemma_signed_record(a.identity_key@, a.encryption_key@, a.created_at, a.signature@);
}

/// An announce is accepted exactly where the key in it signed it, and its time is not more
/// than 300 seconds from the given one, both taken as seconds since the epoch.
pub proof fn law_announce_is_verified(a: &IdentityAnnounce, now: u64, r: Result<(), IdentityError>)
    requires
        call_ensures(IdentityAnnounce::verify_at, (a, now), r),
        a.created_at < 0x8000_0000_0000_0000,
        now < 0x8000_0000_0000_0000,
    ensures
        r is Ok <==> {
            &&& primitives::ed25519_accepts(
                a.identity_key@,
                a.identity_key@ + a.encryption_key@ + wire::le(a.created_at as nat, 8),
                a.signature@,
            )
            &&& a.created_at <= now + 300
            &&& now <= a.created_at + 300
        },
        r matches Err(IdentityError::ClockDrift { delta_secs, threshold_secs }) ==> delta_secs
            == a.created_at - now && threshold_secs == 300,
{
}

/// The announce that an identity signs carries its keys, and is accepted at that time.
pub proof fn law_own_announce_is_accepted(
    keys: &Keys,
    at: u64,
    a: IdentityAnnounce,
    r: Result<(), IdentityError>,
)
    requires
        call_ensures(IdentityAnnounce::sign_at, (keys, at), a),
        call_ensures(IdentityAnnounce::verify_at, (&a, at), r),
    ensures
        r is Ok,
        a.identity_key@ == keys.identity(),
        a.encryption_key@ == keys.exchange(),
        a.created_at == at,
{
}

/// An announce is read back from its bytes.
pub proof fn law_written_is_read(
    a: &IdentityAnnounce,
    b: Vec<u8>,
    bytes: &[u8],
    r: Result<IdentityAnnounce, IdentityError>,
)
    requires
        call_ensures(IdentityAnnounce::to_bytes, (a,), b),
        bytes@ == b@,
        call_ensures(IdentityAnnounce::from_bytes, (bytes,), r),
    ensures
        r matches Ok(x) && x.identity_key@ == a.identity_key@ && x.encryption_key@
            == a.encryption_key@ && x.created_at == a.created_at && x.signature@ == a.signature@,
{
    law_announce_roundtrip(*a);
}

} // verus!
