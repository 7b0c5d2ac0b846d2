//! Time stamps.

use std::time::{SystemTime, UNIX_EPOCH};

use vstd::prelude::*;

verus! {

/// `std::time::SystemTime`, an instant of the system clock.
#[verifier::external_type_specification]
#[verifier::external_body]
pub struct ExSystemTime(SystemTime);

/// `SystemTime::now`: some instant; nothing is said of which.
pub assume_specification[ SystemTime::now ]() -> SystemTime;

/// `SystemTime::duration_since` the Unix epoch, as whole seconds and the nanoseconds beyond them;
/// `None` where the instant lies before the epoch. There are fewer nanoseconds than a second has.
/// How the numbers depend on the instant is not said, since an instant has no value here.
#[verifier::external_body]
fn since_epoch(instant: SystemTime) -> (elapsed: Option<(u64, u32)>)
    ensures
        elapsed matches Some((_, nanos)) ==> nanos < 1_000_000_000,
{
    instant.duration_since(UNIX_EPOCH).ok().map(|d| (d.as_secs(), d.subsec_nanos()))
}

/// The whole milliseconds in a number of seconds and nanoseconds; zero where there is none.
pub fn millis(elapsed: Option<(u64, u32)>) -> (ms: u128)
    ensures
        elapsed is None ==> ms == 0,
        elapsed matches Some((secs, nanos)) ==> ms == secs * 1000 + nanos / 1_000_000,
        elapsed matches Some((secs, nanos)) ==> ms * 1_000_000 <= secs * 1_000_000_000 + nanos < (ms
            + 1) * 1_000_000,
{
    match elapsed {
        Some((secs, nanos)) => secs as u128 * 1000 + (nanos / 1_000_000) as u128,
        None => 0,
    }
}

/// The milliseconds since the Unix epoch; zero where the clock stands before it.
pub fn ts_ms() -> (ms: u128)
    ensures
        ms <= u64::MAX * 1000 + 999,
{
    millis(since_epoch(SystemTime::now()))
}

} // verus!
