//! The wall clock.

use vstd::prelude::*;

verus! {

/// Seconds since the Unix epoch.
pub type Timestamp = i64;

/// Reads the clock through `chrono::Utc::now`. Trusted; nothing is claimed
/// of the time that comes back.
#[verifier::external_body]
fn utc_now() -> Timestamp {
    chrono::offset::Utc::now().timestamp()
}

/// The current time.
pub fn now() -> Timestamp {
    utc_now()
}

} // verus!
