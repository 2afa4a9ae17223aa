//! What the library takes from its surroundings: fresh random identifiers and the wall
//! clock. Nothing is claimed of either value.

use vstd::prelude::*;

verus! {

/// A fresh random identifier: `uuid::Uuid::new_v4()` in its hyphenated text form.
#[verifier::external_body]
pub(crate) fn new_uuid() -> String {
    uuid::Uuid::new_v4().to_string()
}

/// The current time in milliseconds since the Unix epoch: `chrono::Utc::now()`.
#[verifier::external_body]
pub(crate) fn now_millis() -> i64 {
    chrono::Utc::now().timestamp_millis()
}

} // verus!
