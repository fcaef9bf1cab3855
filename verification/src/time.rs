//! Instants on the Unix time line.
use vstd::prelude::*;

verus! {

/// Nanoseconds in one second.
pub const NANOS_PER_SEC: u32 = 1_000_000_000;

/// An instant: whole seconds since the Unix epoch and nanoseconds past them.
///
/// Every pair is an instant. A nanosecond count of a second or more carries
/// over into the seconds, so two different pairs can denote the same instant;
/// ordering and distance go by the instant, [`Timestamp::as_nanos`].
#[derive(Clone, Copy, Debug, PartialEq, Eq, Structural)]
pub struct Timestamp {
    pub secs: i64,
    pub nanos: u32,
}

impl Timestamp {
    /// The instant as a count of nanoseconds since the epoch.
    pub open spec fn as_nanos(self) -> int {
        self.secs * 1_000_000_000 + self.nanos
    }

    /// The absolute difference between two instants, in nanoseconds.
    pub open spec fn spec_distance(self, other: Timestamp) -> nat {
        if self.as_nanos() >= other.as_nanos() {
            (self.as_nanos() - other.as_nanos()) as nat
        } else {
            (other.as_nanos() - self.as_nanos()) as nat
        }
    }

    /// The instant `nanos` nanoseconds past the second `secs`.
    pub fn new(secs: i64, nanos: u32) -> (t: Timestamp)
        ensures
            t.secs == secs,
            t.nanos == nanos,
    {
        Timestamp { secs, nanos }
    }

    /// The instant as a count of nanoseconds since the epoch.
    pub fn total_nanos(self) -> (n: i128)
        ensures
            n == self.as_nanos(),
    {
        let secs: i128 = self.secs as i128;
        let nanos: i128 = self.nanos as i128;
        secs * 1_000_000_000 + nanos
    }

    /// The same instant written with less than a second of nanoseconds, if
    /// its seconds can still be counted.
    pub fn normalized(self) -> (r: Option<Timestamp>)
        ensures
            match r {
                Some(t) => t.as_nanos() == self.as_nanos() && t.nanos < NANOS_PER_SEC,
                None => self.secs + self.nanos / NANOS_PER_SEC > i64::MAX,
            },
    {
        let carry: i64 = (self.nanos / NANOS_PER_SEC) as i64;
        if self.secs > i64::MAX - carry {
            None
        } else {
            Some(Timestamp { secs: self.secs + carry, nanos: self.nanos % NANOS_PER_SEC })
        }
    }

    /// The absolute difference between two instants, in nanoseconds.
    pub fn distance(self, other: Timestamp) -> (d: u128)
        ensures
            d == self.spec_distance(other),
    {
        let a: i128 = self.total_nanos();
        let b: i128 = other.total_nanos();
        if a >= b {
            (a - b) as u128
        } else {
            (b - a) as u128
        }
    }
}

} // verus!
