//! Comparing the bit patterns of floating-point numbers.
//!
//! A pattern has a sign bit, 11 bits of exponent and 52 bits of fraction. Where the
//! exponent is all ones and the fraction is not zero, it stands for no number.

use vstd::prelude::*;

verus! {

/// The sign bit.
pub const SIGN: u64 = 0x8000_0000_0000_0000;

/// The pattern of infinity.
pub const INFINITY: u64 = 0x7FF0_0000_0000_0000;

/// Whether a pattern stands for a number.
pub open spec fn is_number(b: u64) -> bool {
    b % SIGN <= INFINITY
}

/// Patterns of numbers are ordered as their ranks are; both zeros have rank 0.
pub open spec fn rank(b: u64) -> int {
    if b < SIGN {
        b as int
    } else {
        SIGN - b
    }
}

/// Whether `a` is larger than `b`. What is no number is larger than nothing.
pub open spec fn above(a: u64, b: u64) -> bool {
    is_number(a) && is_number(b) && rank(a) > rank(b)
}

/// Whether `a` and `b` are equal. What is no number equals nothing.
pub open spec fn level(a: u64, b: u64) -> bool {
    is_number(a) && is_number(b) && rank(a) == rank(b)
}

/// The smaller of two; where one is no number, the other.
pub open spec fn lower(a: u64, b: u64) -> u64 {
    if !is_number(a) || above(a, b) {
        b
    } else {
        a
    }
}

fn number(b: u64) -> (r: bool)
    ensures
        r == is_number(b),
{
    b % SIGN <= INFINITY
}

fn ranked(b: u64) -> (r: i128)
    ensures
        r == rank(b),
{
    if b < SIGN {
        b as i128
    } else {
        SIGN as i128 - b as i128
    }
}

/// Whether `a` is larger than `b`.
pub fn is_above(a: u64, b: u64) -> (r: bool)
    ensures
        r <==> above(a, b),
{
    number(a) && number(b) && ranked(a) > ranked(b)
}

/// Whether `a` and `b` are equal.
pub fn is_level(a: u64, b: u64) -> (r: bool)
    ensures
        r <==> level(a, b),
{
    number(a) && number(b) && ranked(a) == ranked(b)
}

/// The smaller of two; where one is no number, the other.
pub fn lower_of(a: u64, b: u64) -> (r: u64)
    ensures
        r == lower(a, b),
{
    if !number(a) || is_above(a, b) {
        b
    } else {
        a
    }
}

/// Of two numbers exactly one is larger, or they are equal; and what is no number is
/// neither larger than, nor equal to, nor below anything.
pub proof fn law_one_of_three(a: u64, b: u64)
    ensures
        is_number(a) && is_number(b) ==> (above(a, b) || above(b, a) || level(a, b)),
        !(above(a, b) && above(b, a)),
        !(above(a, b) && level(a, b)),
        level(a, b) == level(b, a),
        is_number(a) ==> level(a, a),
        !is_number(a) ==> !above(a, b) && !above(b, a) && !level(a, b),
{
}

/// The order goes from number to number.
pub proof fn law_transitive(a: u64, b: u64, c: u64)
    ensures
        above(a, b) && above(b, c) ==> above(a, c),
        above(a, b) && level(b, c) ==> above(a, c),
        level(a, b) && above(b, c) ==> above(a, c),
        level(a, b) && level(b, c) ==> level(a, c),
{
}

/// Positive numbers are ordered as their patterns are, negative ones the other way round;
/// every negative number is below every positive one, and both zeros are equal. The
/// pattern of a negative number is that of its amount with the sign bit set.
pub proof fn law_order_of_patterns(a: u64, b: u64)
    requires
        a <= INFINITY,
        b <= INFINITY,
    ensures
        above(a, b) <==> a > b,
        level(a, b) <==> a == b,
        above((SIGN + a) as u64, (SIGN + b) as u64) <==> a < b,
        level((SIGN + a) as u64, (SIGN + b) as u64) <==> a == b,
        above(a, (SIGN + b) as u64) <==> (a > 0 || b > 0),
        level(0, SIGN),
{
}

/// A pattern beyond that of infinity, whatever its sign, is no number.
pub proof fn law_no_number(a: u64)
    requires
        a < SIGN,
    ensures
        is_number(a) <==> a <= 0x7FF0_0000_0000_0000,
        is_number((SIGN + a) as u64) <==> a <= 0x7FF0_0000_0000_0000,
{
}

/// The smaller of two numbers is one of them, and not above either. Where only one of
/// two is a number, it is that one.
pub proof fn law_lower(a: u64, b: u64)
    ensures
        lower(a, b) == a || lower(a, b) == b,
        !above(lower(a, b), a),
        !above(lower(a, b), b),
        is_number(a) || is_number(b) ==> is_number(lower(a, b)),
{
}

} // verus!
