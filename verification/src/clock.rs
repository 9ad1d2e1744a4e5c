//! Access to the wall clock. The reading itself is an opaque value; what
//! the library computes from it is contracted exactly.
use vstd::prelude::*;

verus! {

/// Relies on `chrono::Utc::now` (chrono crate) for the current instant
/// and on `DateTime::timestamp` to read it as seconds since the Unix
/// epoch. Nothing is promised of the result: it depends on the wall
/// clock. Note that on this platform `chrono::Utc::now` itself panics
/// when the system clock stands before the Unix epoch, so a negative
/// reading never actually reaches the callers here.
#[verifier::external_body]
pub fn now_epoch_seconds() -> i64 {
    chrono::Utc::now().timestamp()
}

/// A signed epoch reading as an unsigned count of seconds: a reading
/// before the epoch counts as the epoch itself.
pub fn clamp_epoch_seconds(t: i64) -> (r: u64)
    ensures
        r == if t >= 0 {
            t as u64
        } else {
            0u64
        },
{
    if t >= 0 {
        t as u64
    } else {
        0
    }
}

/// The current time in whole seconds since the Unix epoch, clamped by
/// `clamp_epoch_seconds`.
pub(crate) fn now_secs_u64() -> u64 {
    let t = now_epoch_seconds();
    clamp_epoch_seconds(t)
}

} // verus!
