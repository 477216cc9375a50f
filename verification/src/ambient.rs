//! What comes from outside the program: random identifiers and the time.

use chrono::Utc;
use uuid::Uuid;
use vstd::prelude::*;

verus! {

/// A new random identifier as text, from `uuid::Uuid::new_v4`. Nothing is
/// promised of it: it differs from call to call. `new_v4` panics if the
/// system hands out no random bytes.
#[verifier::external_body]
pub(crate) fn fresh_id() -> (id: String) {
    Uuid::new_v4().to_string()
}

/// The current time in UTC as an RFC 3339 string, from `chrono::Utc::now`
/// and `to_rfc3339`. Nothing is promised of it: it depends on the clock.
/// `Utc::now` panics if the clock stands before the year 1970.
#[verifier::external_body]
pub(crate) fn timestamp() -> (date: String) {
    Utc::now().to_rfc3339()
}

} // verus!
