//! Wall-clock reads. Nothing can be promised of the time itself; only
//! the shape of the values is stated.

use vstd::prelude::*;

verus! {

/// Relies on std::time::SystemTime: seconds of Unix time now, clamped to
/// the i64 range. Only non-negativity holds of every outcome.
#[verifier::external_body]
pub fn now_seconds() -> (r: i64)
    ensures
        0 <= r,
{
    match std::time::SystemTime::now().duration_since(std::time::UNIX_EPOCH) {
        Ok(d) => {
            let s = d.as_secs();
            if s > i64::MAX as u64 {
                i64::MAX
            } else {
                s as i64
            }
        },
        Err(_) => 0,
    }
}

/// Relies on std::time::SystemTime: seconds and the millisecond part of
/// Unix time now. The seconds are non-negative and the millisecond part
/// is below 1000, whatever the clock says.
#[verifier::external_body]
pub fn now_seconds_millis() -> (r: (i64, u32))
    ensures
        0 <= r.0,
        r.1 < 1000,
{
    match std::time::SystemTime::now().duration_since(std::time::UNIX_EPOCH) {
        Ok(d) => {
            let s = d.as_secs();
            let sec = if s > i64::MAX as u64 { i64::MAX } else { s as i64 };
            (sec, d.subsec_millis())
        },
        Err(_) => (0, 0),
    }
}

} // verus!
