//! Application-wide utilities.

use std::time::{Duration, SystemTime, UNIX_EPOCH};
use vstd::prelude::*;

verus! {

#[verifier::external_type_specification]
#[verifier::external_body]
pub struct ExSystemTime(SystemTime);

/// Relies on `SystemTime::now`: the wall clock's reading.
#[verifier::external_body]
fn wall_clock_now() -> (r: SystemTime) {
    SystemTime::now()
}

/// Relies on `SystemTime::duration_since(UNIX_EPOCH)`: the time elapsed since
/// the epoch, `None` when `t` lies before it.
#[verifier::external_body]
fn since_epoch(t: &SystemTime) -> (r: Option<Duration>) {
    t.duration_since(UNIX_EPOCH).ok()
}

/// Relies on `Duration::as_millis`: the whole milliseconds of `d`.
#[verifier::external_body]
fn whole_millis(d: &Duration) -> (r: u128) {
    d.as_millis()
}

/// Milliseconds since the Unix epoch by the wall clock; zero when the clock
/// reads a time before the epoch.
pub fn get_epoch_ms() -> (r: u128) {
    let now = wall_clock_now();
    match since_epoch(&now) {
        Some(d) => whole_millis(&d),
        None => 0,
    }
}

} // verus!
