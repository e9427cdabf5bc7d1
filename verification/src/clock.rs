//! The system clock.
use vstd::prelude::*;
use crate::timestamp::Timestamp;

verus! {

/// Reads the system clock with `std::time::SystemTime::now`, has `chrono`
/// turn the reading into a `DateTime<Utc>` (its `From<SystemTime>`), and
/// gives the instant as the seconds (`DateTime::timestamp`) and the further
/// nanoseconds (`DateTime::timestamp_subsec_nanos`) counted from the Unix
/// epoch; a reading before the epoch gives a negative count of seconds. No
/// time zone is looked up. Nothing is claimed of the value, which differs
/// from call to call.
#[verifier::external_body]
pub(crate) fn now() -> (t: Timestamp) {
    let moment: chrono::DateTime<chrono::Utc> = std::time::SystemTime::now().into();
    Timestamp { secs: moment.timestamp(), nanos: moment.timestamp_subsec_nanos() }
}

} // verus!
