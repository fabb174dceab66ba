//! Errors of the identity layer.

use crate::text;
use vstd::prelude::*;

verus! {

/// What can be wrong with an address or an announcement.
#[derive(Debug, PartialEq, Eq, Clone)]
pub enum IdentityError {
    /// A byte string has the wrong length for `name`.
    InvalidLength { name: &'static str, expected: usize, got: usize },
    /// The signature does not belong to the announced key.
    SignatureMismatch,
    /// The announcement is too far from the local clock.
    ClockDrift { delta_secs: i64, threshold_secs: u64 },
    /// Text or bytes could not be decoded.
    Serde(String),
}

impl IdentityError {
    /// The text of the error.
    pub open spec fn message(&self) -> Seq<char> {
        match *self {
            IdentityError::InvalidLength { name, expected, got } => "invalid length for "@ + name@
                + ": expected "@ + text::decimal(expected as nat) + ", got "@ + text::decimal(
                got as nat,
            ),
            IdentityError::SignatureMismatch => "signature verification failed"@,
            IdentityError::ClockDrift { delta_secs, threshold_secs } => "clock drift "@
                + text::signed_decimal(delta_secs as int) + "s exceeds "@ + text::decimal(
                threshold_secs as nat,
            ) + "s"@,
            IdentityError::Serde(m) => "serialization: "@ + m@,
        }
    }

    /// The message that describes the error.
    pub fn to_string(&self) -> (out: String)
        ensures
            out@ == self.message(),
    {
        match self {
            IdentityError::InvalidLength { name, expected, got } => {
                let mut s: String = text::join("invalid length for ", name);
                s.append(": expected ");
                s.append(text::to_decimal(*expected as u64).as_str());
                s.append(", got ");
                s.append(text::to_decimal(*got as u64).as_str());
                s
            },
            IdentityError::SignatureMismatch => "signature verification failed".to_owned(),
            IdentityError::ClockDrift { delta_secs, threshold_secs } => {
                let mut s: String = text::join(
                    "clock drift ",
                    text::to_signed_decimal(*delta_secs).as_str(),
                );
                s.append("s exceeds ");
                s.append(text::to_decimal(*threshold_secs).as_str());
                s.append("s");
                s
            },
            IdentityError::Serde(m) => text::join("serialization: ", m.as_str()),
        }
    }
}

} // verus!
