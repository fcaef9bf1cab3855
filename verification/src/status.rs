//! Status observations and their timestamps.
use crate::text::{decimal, decimal_string};
use crate::time::Timestamp;
use vstd::prelude::*;
use vstd::string::*;

verus! {

/// The texts of a list of pairs of strings.
pub open spec fn pairs_view(pairs: Seq<(String, String)>) -> Seq<(Seq<char>, Seq<char>)> {
    pairs.map_values(|pair: (String, String)| (pair.0@, pair.1@))
}

/// A status as a list of keys and values: its kind, then its reason.
///
/// An up status is listed with the kind `unknown`, and with its latency in
/// decimal as the reason.
pub open spec fn status_map(status: Status) -> Seq<(Seq<char>, Seq<char>)> {
    match status {
        Status::Unknown(reason) => seq![("kind"@, "unknown"@), ("reason"@, reason@)],
        Status::Down(reason) => seq![("kind"@, "down"@), ("reason"@, reason@)],
        Status::Up(latency) => seq![("kind"@, "unknown"@), ("reason"@, decimal(latency as nat))],
    }
}

/// A status in words.
pub open spec fn status_text(status: Status) -> Seq<char> {
    match status {
        Status::Up(latency) => "Up, latency "@ + decimal(latency as nat) + "ms"@,
        Status::Down(reason) => "Down: "@ + reason@,
        Status::Unknown(reason) => "Unknown: "@ + reason@,
    }
}

/// One observation of a service.
#[derive(Debug, PartialEq, Eq)]
pub enum Status {
    /// The service answered; the latency in milliseconds.
    Up(u32),
    /// The service did not answer; the reason.
    Down(String),
    /// The service could not be observed; the reason.
    Unknown(String),
}

impl Clone for Status {
    fn clone(&self) -> (res: Self)
        ensures
            res == *self,
    {
        match self {
            Status::Up(latency) => Status::Up(*latency),
            Status::Down(reason) => Status::Down(reason.clone()),
            Status::Unknown(reason) => Status::Unknown(reason.clone()),
        }
    }
}

impl Status {
    /// The status as a list of keys and values: its kind, then its reason.
    #[must_use]
    pub fn to_map(&self) -> (r: Box<[(String, String)]>)
        ensures
            pairs_view(r@) == status_map(*self),
    {
        let r: Box<[(String, String)]> = Box::new(
            match self {
                Self::Unknown(reason) => [
                    (String::from_str("kind"), String::from_str("unknown")),
                    (String::from_str("reason"), reason.clone()),
                ],
                Self::Down(reason) => [
                    (String::from_str("kind"), String::from_str("down")),
                    (String::from_str("reason"), reason.clone()),
                ],
                Self::Up(d) => [
                    (String::from_str("kind"), String::from_str("unknown")),
                    (String::from_str("reason"), decimal_string(*d)),
                ],
            },
        );
        assert(pairs_view(r@) =~= status_map(*self));
        r
    }

    /// The status in words.
    pub fn to_string(&self) -> (s: String)
        ensures
            s@ == status_text(*self),
    {
        match self {
            Self::Up(l) => {
                let mut s = String::from_str("Up, latency ");
                s.append(decimal_string(*l).as_str());
                s.append("ms");
                s
            },
            Self::Down(r) => {
                let mut s = String::from_str("Down: ");
                s.append(r.as_str());
                s
            },
            Self::Unknown(r) => {
                let mut s = String::from_str("Unknown: ");
                s.append(r.as_str());
                s
            },
        }
    }
}

/// A status together with the instant at which it was observed.
#[derive(Debug, PartialEq, Eq)]
pub struct TimedStatus {
    pub time: Timestamp,
    pub inner: Status,
}

impl Clone for TimedStatus {
    fn clone(&self) -> (res: Self)
        ensures
            res == *self,
    {
        TimedStatus { time: self.time, inner: self.inner.clone() }
    }
}

impl TimedStatus {
    /// The instant of the observation, in nanoseconds since the epoch.
    pub open spec fn instant(self) -> int {
        self.time.as_nanos()
    }

    /// The distance between the observation and `time`, in nanoseconds.
    pub open spec fn gap(self, time: Timestamp) -> nat {
        self.time.spec_distance(time)
    }
}

} // verus!
