//! The wall clock, read through chrono when an entry is recorded.

use vstd::prelude::*;

verus! {

/// The current time, rendered as an RFC 3339 timestamp.
///
/// Relies on `chrono::Utc::now` and `chrono::DateTime::to_rfc3339`. The
/// result depends on the wall clock, so nothing is promised of it; callers
/// treat it as an arbitrary string. `chrono::Utc::now` panics when the
/// system clock stands before the Unix epoch.
#[verifier::external_body]
pub(crate) fn current_timestamp_rfc3339() -> String {
    chrono::Utc::now().to_rfc3339()
}

} // verus!
