//! The clock that stamps logs.

use vstd::prelude::*;

verus! {

/// The system clock, read with `std::time::SystemTime::now`, taken as a
/// `chrono::DateTime<Utc>` and, with `DateTime::timestamp_millis`, as
/// milliseconds since the Unix epoch; a clock that stands before the epoch
/// gives a negative number. Nothing is promised of the value: it is whatever
/// the system clock says.
#[verifier::external_body]
pub(crate) fn now_millis() -> i64 {
    chrono::DateTime::<chrono::Utc>::from(std::time::SystemTime::now()).timestamp_millis()
}

} // verus!
