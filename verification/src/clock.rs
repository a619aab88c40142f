//! Wall-clock readings, as whole units since the Unix epoch.
use vstd::prelude::*;

verus! {

/// Calls `std::time::SystemTime::now` and gives how long after the Unix epoch it is, as
/// seconds and the nanoseconds past them, or none when the clock reads an earlier time.
/// Claimed, as std documents `Duration::subsec_nanos`: the nanoseconds are below a billion.
#[verifier::external_body]
fn system_now_since_epoch() -> (r: Option<(u64, u32)>)
    ensures
        r matches Some(d) ==> d.1 < 1_000_000_000,
{
    match std::time::SystemTime::now().duration_since(std::time::UNIX_EPOCH) {
        Ok(d) => Some((d.as_secs(), d.subsec_nanos())),
        Err(_) => None,
    }
}

/// Nanoseconds since the epoch of a time given as seconds and nanoseconds after it (none
/// for a time before it, which counts as the epoch itself).
pub open spec fn unix_nanos(since_epoch: Option<(u64, u32)>) -> int {
    match since_epoch {
        None => 0,
        Some(d) => d.0 * 1_000_000_000 + d.1,
    }
}

/// Nanoseconds since the epoch (see `unix_nanos`).
pub fn to_unix_nanos(since_epoch: Option<(u64, u32)>) -> (r: i128)
    ensures
        r == unix_nanos(since_epoch),
{
    match since_epoch {
        None => 0,
        Some((secs, nanos)) => secs as i128 * 1_000_000_000 + nanos as i128,
    }
}

/// The current time in nanoseconds since the Unix epoch, by the system clock (zero when the
/// clock reads an earlier time).
pub fn now_nanos() -> (r: i128)
    ensures
        r >= 0,
{
    to_unix_nanos(system_now_since_epoch())
}

/// Whole seconds since the epoch as a signed count: the seconds reinterpreted as `i64`
/// (they wrap past `i64::MAX`, as an `as` conversion does); zero for a time before it.
pub open spec fn unix_timestamp(since_epoch: Option<(u64, u32)>) -> i64 {
    match since_epoch {
        None => 0,
        Some(d) => d.0 as i64,
    }
}

/// Whole seconds since the epoch (see `unix_timestamp`).
pub fn to_unix_timestamp(since_epoch: Option<(u64, u32)>) -> (r: i64)
    ensures
        r == unix_timestamp(since_epoch),
{
    match since_epoch {
        Some((secs, _)) => secs as i64,
        None => 0,
    }
}

/// Milliseconds since the epoch of a time given as seconds and nanoseconds after it (none
/// for a time before it, which counts as the epoch itself), capped at `u64::MAX`.
pub open spec fn unix_ms(since_epoch: Option<(u64, u32)>) -> u64 {
    match since_epoch {
        None => 0,
        Some(d) => {
            let ms = d.0 * 1000 + d.1 / 1_000_000;
            if ms > u64::MAX {
                u64::MAX
            } else {
                ms as u64
            }
        },
    }
}

/// Milliseconds since the epoch (see `unix_ms`).
pub fn to_unix_ms(since_epoch: Option<(u64, u32)>) -> (r: u64)
    requires
        since_epoch matches Some(d) ==> d.1 < 1_000_000_000,
    ensures
        r == unix_ms(since_epoch),
{
    match since_epoch {
        None => 0,
        Some((secs, nanos)) => {
            let ms: u128 = secs as u128 * 1000 + (nanos / 1_000_000) as u128;
            if ms > u64::MAX as u128 {
                u64::MAX
            } else {
                ms as u64
            }
        },
    }
}

/// The current time in milliseconds since the epoch, by the system clock.
pub fn now_unix_millis() -> (r: u64) {
    to_unix_ms(system_now_since_epoch())
}

/// The current time in whole seconds since the epoch (zero when the clock reads an earlier
/// time), as a signed count.
pub fn now_unix_timestamp() -> (r: i64) {
    to_unix_timestamp(system_now_since_epoch())
}

} // verus!
