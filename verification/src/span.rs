//! Spans of time.

use vstd::prelude::*;

verus! {

/// A span of time: whole seconds and the nanoseconds beyond them.
#[derive(Debug, Clone, Copy, PartialEq, Eq, Structural, Hash)]
pub struct TimeSpan {
    pub secs: u64,
    pub nanos: u32,
}

/// A span of whole milliseconds.
pub open spec fn millis_span(millis: nat) -> TimeSpan {
    TimeSpan { secs: (millis / 1000) as u64, nanos: (millis % 1000 * 1_000_000) as u32 }
}

/// The sum of two spans; the longest span where it cannot be represented.
pub open spec fn sum_span(a: TimeSpan, b: TimeSpan) -> TimeSpan {
    let nanos = a.nanos + b.nanos;
    let secs = a.secs + b.secs + nanos / 1_000_000_000;
    if secs > u64::MAX {
        TimeSpan { secs: u64::MAX, nanos: 999_999_999 }
    } else {
        TimeSpan { secs: secs as u64, nanos: (nanos % 1_000_000_000) as u32 }
    }
}

/// The longer of two spans; the second where they are equal.
pub open spec fn longer_span(a: TimeSpan, b: TimeSpan) -> TimeSpan {
    if b.total() < a.total() {
        a
    } else {
        b
    }
}

impl TimeSpan {
    /// The length in nanoseconds.
    pub open spec fn total(&self) -> nat {
        self.secs as nat * 1_000_000_000 + self.nanos as nat
    }

    /// A span of whole seconds.
    pub fn from_secs(secs: u64) -> (t: Self)
        ensures
            t == (TimeSpan { secs, nanos: 0 }),
    {
        TimeSpan { secs, nanos: 0 }
    }

    /// A span of whole milliseconds.
    pub fn from_millis(millis: u64) -> (t: Self)
        ensures
            t == millis_span(millis as nat),
    {
        TimeSpan { secs: millis / 1000, nanos: (millis % 1000) as u32 * 1_000_000 }
    }

    /// The whole milliseconds in the span.
    pub fn as_millis(&self) -> (n: u128)
        ensures
            n == self.total() / 1_000_000,
    {
        let n: u128 = self.secs as u128 * 1000 + (self.nanos / 1_000_000) as u128;
        n
    }

    /// The whole seconds in the span.
    pub fn as_secs(&self) -> (n: u64)
        ensures
            n == self.secs,
    {
        self.secs
    }

    /// Whether the span is shorter than another.
    pub fn shorter_than(&self, other: &TimeSpan) -> (r: bool)
        ensures
            r <==> self.total() < other.total(),
    {
        let a: u128 = self.secs as u128 * 1_000_000_000 + self.nanos as u128;
        let b: u128 = other.secs as u128 * 1_000_000_000 + other.nanos as u128;
        a < b
    }

    /// The longer of two spans; the second where they are equal.
    pub fn longer(self, other: TimeSpan) -> (t: TimeSpan)
        ensures
            t == longer_span(self, other),
    {
        if other.shorter_than(&self) {
            self
        } else {
            other
        }
    }

    /// The sum of two spans, as far as it can be represented.
    pub fn plus(self, other: TimeSpan) -> (t: TimeSpan)
        ensures
            t == sum_span(self, other),
            self.total() + other.total() < 0x1_0000_0000_0000_0000 * 1_000_000_000 ==> t.total()
                == self.total() + other.total(),
            self.total() + other.total() >= 0x1_0000_0000_0000_0000 * 1_000_000_000 ==> t == (
            TimeSpan { secs: u64::MAX, nanos: 999_999_999 }),
    {
        let nanos: u64 = self.nanos as u64 + other.nanos as u64;
        let secs: u128 = self.secs as u128 + other.secs as u128 + (nanos / 1_000_000_000) as u128;
        if secs > u64::MAX as u128 {
            TimeSpan { secs: u64::MAX, nanos: 999_999_999 }
        } else {
            TimeSpan { secs: secs as u64, nanos: (nanos % 1_000_000_000) as u32 }
        }
    }
}

/// Adding two spans adds their lengths, as far as the sum can be represented; the sum
/// has less than a second of nanoseconds, and is never shorter than either.
pub proof fn law_sum(a: TimeSpan, b: TimeSpan)
    requires
        a.nanos < 1_000_000_000,
        b.nanos < 1_000_000_000,
    ensures
        a.total() + b.total() < 0x1_0000_0000_0000_0000 * 1_000_000_000 ==> sum_span(a, b).total()
            == a.total() + b.total(),
        sum_span(a, b).nanos < 1_000_000_000,
        sum_span(a, b).total() >= a.total(),
        sum_span(a, b).total() >= b.total(),
        sum_span(a, b) == sum_span(b, a),
{
}

/// The longer of two spans is one of them, and not shorter than either.
pub proof fn law_longer(a: TimeSpan, b: TimeSpan)
    ensures
        longer_span(a, b) == a || longer_span(a, b) == b,
        longer_span(a, b).total() >= a.total(),
        longer_span(a, b).total() >= b.total(),
{
}

/// A span of milliseconds is a million times as many nanoseconds long.
pub proof fn law_millis(millis: u64)
    ensures
        millis_span(millis as nat).total() == millis * 1_000_000,
        millis_span(millis as nat).nanos < 1_000_000_000,
{
    let m = millis as nat;
    assert(m / 1000 <= u64::MAX && m == (m / 1000) * 1000 + m % 1000);
}

} // verus!
