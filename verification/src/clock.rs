//! Time.

use crate::identity::identity_announce;
use vstd::prelude::*;

verus! {

/// `std::time::SystemTime::now`, in whole seconds since the Unix epoch (0 before it).
/// Nothing is known of the outcome.
#[verifier::external_body]
pub(crate) fn unix_secs() -> (secs: u64) {
    std::time::SystemTime::now()
        .duration_since(std::time::UNIX_EPOCH)
        .unwrap_or_default()
        .as_secs()
}

/// `a - b`, both taken as signed 64-bit values, wrapping around.
pub(crate) fn signed_difference(a: u64, b: u64) -> (d: i64)
    ensures
        d == identity_announce::drift(a, b),
{
    let x: i128 = if a < 0x8000_0000_0000_0000 {
        a as i128
    } else {
        a as i128 - 0x1_0000_0000_0000_0000
    };
    let y: i128 = if b < 0x8000_0000_0000_0000 {
        b as i128
    } else {
        b as i128 - 0x1_0000_0000_0000_0000
    };
    let d: i128 = x - y;
    if d > 0x7fff_ffff_ffff_ffff {
        (d - 0x1_0000_0000_0000_0000) as i64
    } else if d < -0x8000_0000_0000_0000 {
        (d + 0x1_0000_0000_0000_0000) as i64
    } else {
        d as i64
    }
}

} // verus!
