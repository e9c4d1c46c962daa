//! Points in time, kept to the nanosecond.
use vstd::prelude::*;

verus! {

/// A point in time: whole seconds since the Unix epoch, and the nanoseconds into that second
/// (at least one billion only within a leap second, as `chrono` counts them).
#[derive(Clone, Copy, Debug, PartialEq, Eq, Structural)]
pub struct Timestamp {
    pub secs: i64,
    pub nanos: u32,
}

/// `a` comes before `b`: an earlier second, or the same second and fewer nanoseconds.
pub open spec fn before(a: Timestamp, b: Timestamp) -> bool {
    a.secs < b.secs || (a.secs == b.secs && a.nanos < b.nanos)
}

/// A timestamp as a pair of seconds and nanoseconds.
pub open spec fn time_pair(t: Timestamp) -> (i64, u32) {
    (t.secs, t.nanos)
}

impl Timestamp {
    /// Whether this time comes before `other` (see `before`).
    pub fn is_before(&self, other: &Timestamp) -> (r: bool)
        ensures
            r == before(*self, *other),
    {
        self.secs < other.secs || (self.secs == other.secs && self.nanos < other.nanos)
    }
}

/// The current time (`chrono::Utc::now`), as seconds and nanoseconds since the Unix epoch.
/// Nothing is stated of it: it is the machine's clock.
#[verifier::external_body]
pub(crate) fn now() -> (r: Timestamp) {
    let t = chrono::Utc::now();
    Timestamp { secs: t.timestamp(), nanos: t.timestamp_subsec_nanos() }
}

} // verus!
