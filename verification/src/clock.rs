//! The creation time that every manifest records.

use vstd::prelude::*;

verus! {

/// A point in time: whole seconds since the Unix epoch and the nanoseconds
/// past that second.
#[derive(Clone, Copy, Debug, PartialEq, Eq, Structural)]
pub struct Timestamp {
    pub secs: i64,
    pub nanos: u32,
}

/// Reads the system clock with `chrono::Local::now` and returns the instant
/// as `DateTime::timestamp` and `DateTime::timestamp_subsec_nanos` give it.
/// Nothing is claimed of the value: it is whatever the clock says. The call
/// does not return where the system clock stands before the Unix epoch or
/// where no local time type can be selected for the machine's time zone.
#[verifier::external_body]
pub(crate) fn local_now() -> (now: Timestamp) {
    let now = chrono::Local::now();
    Timestamp { secs: now.timestamp(), nanos: now.timestamp_subsec_nanos() }
}

} // verus!
