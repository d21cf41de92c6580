//! Points in time (UTC) and the visibility that a publication time gives content.
use vstd::prelude::*;

verus! {

/// A UTC point in time: whole seconds since the Unix epoch and the nanoseconds past them.
#[derive(Clone, Copy, Debug, PartialEq, Eq)]
pub struct Timestamp {
    pub secs: i64,
    pub nanos: u32,
}

/// `a` lies strictly after `b`.
pub open spec fn later(a: Timestamp, b: Timestamp) -> bool {
    a.secs > b.secs || (a.secs == b.secs && a.nanos > b.nanos)
}

impl Timestamp {
    /// A point in time from whole seconds since the epoch.
    pub fn from_secs(secs: i64) -> (r: Self)
        ensures
            r.secs == secs,
            r.nanos == 0,
    {
        Timestamp { secs, nanos: 0 }
    }

    /// Whether `self` lies strictly after `other`.
    pub fn is_after(&self, other: &Timestamp) -> (r: bool)
        ensures
            r == later(*self, *other),
    {
        self.secs > other.secs || (self.secs == other.secs && self.nanos > other.nanos)
    }
}

/// Relies on `chrono::Utc::now`: the current time, read from the system clock. Nothing is
/// known of the value.
#[verifier::external_body]
pub(crate) fn now() -> (r: Timestamp) {
    let t = chrono::Utc::now();
    Timestamp { secs: t.timestamp(), nanos: t.timestamp_subsec_nanos() }
}

/// The publication state of an item.
#[derive(Clone, Copy, Debug, PartialEq, Eq)]
pub enum Visibility {
    /// No publication time.
    Draft,
    /// Publication time in the future.
    Scheduled,
    /// Publication time reached.
    Live,
}

/// Draft without a publication time, scheduled before it, live from it on.
pub open spec fn visibility_at(goes_live_at: Option<Timestamp>, now: Timestamp) -> Visibility {
    match goes_live_at {
        None => Visibility::Draft,
        Some(t) => if later(t, now) {
            Visibility::Scheduled
        } else {
            Visibility::Live
        },
    }
}

/// The visibility of an item with publication time `goes_live_at` at time `now`.
pub fn visibility(goes_live_at: Option<Timestamp>, now: &Timestamp) -> (r: Visibility)
    ensures
        r == visibility_at(goes_live_at, *now),
{
    match goes_live_at {
        None => Visibility::Draft,
        Some(t) => if t.is_after(now) {
            Visibility::Scheduled
        } else {
            Visibility::Live
        },
    }
}

} // verus!
