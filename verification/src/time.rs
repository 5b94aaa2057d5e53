//! Instants on the UTC time line, counted from the Unix epoch.

use vstd::prelude::*;

verus! {

/// Nanoseconds in one second.
pub const NANOS_PER_SEC: u32 = 1_000_000_000;

/// An instant: whole seconds since 1970-01-01T00:00:00Z and the nanoseconds
/// that follow them.
#[derive(Clone, Copy, Debug, PartialEq, Eq, Structural)]
pub struct Timestamp {
    pub secs: i64,
    pub nanos: u32,
}

/// Integer division that rounds toward zero, for a positive divisor.
pub open spec fn div_toward_zero(a: int, b: int) -> int
    recommends
        b > 0,
{
    if a >= 0 {
        a / b
    } else {
        -((-a) / b)
    }
}

/// `v` held to the range of `i64`.
pub open spec fn clamp_i64(v: int) -> int {
    if v < i64::MIN {
        i64::MIN as int
    } else if v > i64::MAX {
        i64::MAX as int
    } else {
        v
    }
}

impl Timestamp {
    /// The instant as one number: nanoseconds since the epoch.
    pub open spec fn nanos_since_epoch(self) -> int {
        self.secs * 1_000_000_000 + self.nanos
    }

    /// The nanosecond part stays below one second.
    pub open spec fn wf(self) -> bool {
        self.nanos < NANOS_PER_SEC
    }

    /// Whole seconds from `earlier` to `self`, rounded toward zero; negative
    /// when `self` comes first.
    pub open spec fn spec_seconds_since(self, earlier: Timestamp) -> int {
        div_toward_zero(self.nanos_since_epoch() - earlier.nanos_since_epoch(), 1_000_000_000)
    }

    /// The instant `secs` seconds after `self`.
    pub open spec fn spec_plus_seconds(self, secs: int) -> Timestamp {
        Timestamp { secs: (self.secs + secs) as i64, nanos: self.nanos }
    }

    /// The instant `nanos` nanoseconds after the second `secs`.
    pub fn new(secs: i64, nanos: u32) -> (t: Timestamp)
        ensures
            t.secs == secs,
            t.nanos == nanos,
    {
        Timestamp { secs, nanos }
    }

    /// Whether `self` lies strictly before `other`.
    pub fn is_before(&self, other: &Timestamp) -> (r: bool)
        ensures
            r == (self.nanos_since_epoch() < other.nanos_since_epoch()),
    {
        let a: i128 = self.secs as i128 * 1_000_000_000 + self.nanos as i128;
        let b: i128 = other.secs as i128 * 1_000_000_000 + other.nanos as i128;
        a < b
    }

    /// Whole seconds elapsed from `earlier` to `self`, rounded toward zero and
    /// held to the range of `i64`.
    pub fn seconds_since(&self, earlier: &Timestamp) -> (r: i64)
        ensures
            r == clamp_i64(self.spec_seconds_since(*earlier)),
    {
        let a: i128 = self.secs as i128 * 1_000_000_000 + self.nanos as i128;
        let b: i128 = earlier.secs as i128 * 1_000_000_000 + earlier.nanos as i128;
        let d: i128 = a - b;
        let q: i128 = if d >= 0 {
            (d as u128 / 1_000_000_000) as i128
        } else {
            -(((-d) as u128 / 1_000_000_000) as i128)
        };
        if q < i64::MIN as i128 {
            i64::MIN
        } else if q > i64::MAX as i128 {
            i64::MAX
        } else {
            q as i64
        }
    }

    /// The instant `secs` seconds after `self`.
    pub fn plus_seconds(&self, secs: i64) -> (t: Timestamp)
        requires
            i64::MIN <= self.secs + secs <= i64::MAX,
        ensures
            t == self.spec_plus_seconds(secs as int),
            t.nanos_since_epoch() == self.nanos_since_epoch() + secs * 1_000_000_000,
    {
        Timestamp { secs: self.secs + secs, nanos: self.nanos }
    }
}

} // verus!
