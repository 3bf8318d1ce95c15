//! The clock, in seconds since the Unix epoch.

use vstd::prelude::*;

verus! {

/// The readings of the clock that one call makes, in the order in which it makes them.
pub struct Clock {
    /// When a token reply is banked.
    pub received: i64,
    /// When the access token is looked at before a request is built.
    pub checked: i64,
    /// When the access token is put on the request.
    pub sent: i64,
}

/// Calls `std::time::SystemTime::now` and counts the seconds since `UNIX_EPOCH`. Nothing is
/// claimed of the reading.
#[verifier::external_body]
fn now_s() -> i64 {
    std::time::SystemTime::now()
        .duration_since(std::time::UNIX_EPOCH)
        .unwrap_or_default()
        .as_secs() as i64
}

impl Clock {
    /// Reads the clock.
    pub fn read() -> Clock {
        Clock { received: now_s(), checked: now_s(), sent: now_s() }
    }
}

} // verus!
