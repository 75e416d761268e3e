//! The wall clock, read through the external time library.

use vstd::prelude::*;

verus! {

/// Relies on `chrono::Utc::now` for the current time, converted to a
/// millisecond timestamp; the reading depends on the environment, so
/// nothing is assumed about the value.
#[verifier::external_body]
pub(crate) fn now_timestamp_millis() -> i64 {
    chrono::Utc::now().timestamp_millis()
}

} // verus!
