//! Wall-clock access. Timestamps throughout the library are microseconds
//! since the Unix epoch, in UTC.
use vstd::prelude::*;

verus! {

/// Microseconds in one second.
pub const SECOND_MICROS: i64 = 1_000_000;

/// Microseconds in one hour.
pub const HOUR_MICROS: i64 = 3_600_000_000;

/// Microseconds in one day.
pub const DAY_MICROS: i64 = 86_400_000_000;

/// The last second that chrono's `DateTime::<Utc>::MAX_UTC` can hold
/// (262142-12-31 23:59:59 UTC), in seconds since the epoch.
pub const MAX_UTC_SECS: i64 = 8_210_266_876_799;

/// The last microsecond of `MAX_UTC_SECS`.
pub const MAX_UTC_MICROS: i64 = 8_210_266_876_799_999_999;

/// Relies on `std::time::SystemTime::now` and `SystemTime::duration_since`:
/// the time elapsed since the Unix epoch as whole seconds and nanoseconds,
/// or `None` where the system clock reads before the epoch.
/// `Duration::subsec_nanos` is always below one billion.
#[verifier::external_body]
fn time_since_epoch() -> (r: Option<(u64, u32)>)
    ensures
        r matches Some(d) ==> d.1 < 1_000_000_000,
{
    match std::time::SystemTime::now().duration_since(std::time::UNIX_EPOCH) {
        Ok(d) => Some((d.as_secs(), d.subsec_nanos())),
        Err(_) => None,
    }
}

/// Relies on `chrono::DateTime::<Utc>::from_timestamp` and
/// `DateTime::timestamp_micros`: the instant `secs` seconds and `nanos`
/// nanoseconds after the epoch, in microseconds. `from_timestamp` returns
/// `None` instead of panicking, and returns `Some` for every second from the
/// epoch to `MAX_UTC` with nanoseconds below one billion.
#[verifier::external_body]
fn utc_timestamp_micros(secs: i64, nanos: u32) -> (r: Option<i64>)
    ensures
        r matches Some(m) ==> m == secs * 1_000_000 + nanos / 1000,
        0 <= secs <= MAX_UTC_SECS && nanos < 1_000_000_000 ==> r is Some,
{
    match chrono::DateTime::<chrono::Utc>::from_timestamp(secs, nanos) {
        Some(t) => Some(t.timestamp_micros()),
        None => None,
    }
}

/// The current time as microseconds since the epoch. A system clock that
/// reads before the epoch gives the epoch, and one beyond chrono's range
/// gives `MAX_UTC_MICROS`; this never panics.
pub fn now_micros() -> (r: i64)
    ensures
        0 <= r <= MAX_UTC_MICROS,
{
    match time_since_epoch() {
        None => 0,
        Some((secs, nanos)) => {
            if secs > MAX_UTC_SECS as u64 {
                return MAX_UTC_MICROS;
            }
            match utc_timestamp_micros(secs as i64, nanos) {
                Some(m) => m,
                None => 0,
            }
        },
    }
}

} // verus!
