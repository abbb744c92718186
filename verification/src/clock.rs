//! Wall-clock time, read through std and turned into the labels the proxy stores.

use vstd::prelude::*;
use std::time::{Duration, SystemTime, SystemTimeError};
use crate::json::{decimal, decimal_text};

verus! {

broadcast use vstd::string::group_string_axioms;

#[verifier::external_type_specification]
#[verifier::external_body]
pub struct ExSystemTime(std::time::SystemTime);

#[verifier::external_type_specification]
#[verifier::external_body]
pub struct ExSystemTimeError(std::time::SystemTimeError);

/// std's `SystemTime::now`: the current time, of which nothing is promised.
#[verifier::external_body]
fn system_now() -> SystemTime {
    SystemTime::now()
}

/// std's `SystemTime::duration_since`, measured from the Unix epoch; it fails
/// for a time before the epoch. Nothing is promised of the duration.
#[verifier::external_body]
fn since_unix_epoch(t: &SystemTime) -> Result<Duration, SystemTimeError> {
    t.duration_since(std::time::UNIX_EPOCH)
}

/// std's `Duration::as_secs`: the whole seconds of `d`.
#[verifier::external_body]
fn whole_seconds(d: &Duration) -> u64 {
    d.as_secs()
}

/// The seconds since the Unix epoch, or `None` when the clock stands before it.
pub fn unix_seconds() -> Option<u64> {
    match since_unix_epoch(&system_now()) {
        Ok(d) => Some(whole_seconds(&d)),
        Err(_) => None,
    }
}

/// The time label stored with a capture: the seconds, then `s-since-epoch`.
pub fn timestamp_label(secs: u64) -> (s: String)
    ensures
        s@ == decimal_text(secs as nat) + "s-since-epoch"@,
{
    let mut s = decimal(secs);
    s.append("s-since-epoch");
    s
}

/// The label for a clock reading: its seconds since the epoch, or second 0
/// when the clock stands before the epoch (`None`).
pub open spec fn clock_label_text(now: Option<u64>) -> Seq<char> {
    decimal_text(
        match now {
            Some(t) => t as nat,
            None => 0,
        },
    ) + "s-since-epoch"@
}

/// The time label for a clock reading.
pub fn clock_label(now: Option<u64>) -> (s: String)
    ensures
        s@ == clock_label_text(now),
{
    let secs = match now {
        Some(t) => t,
        None => 0,
    };
    timestamp_label(secs)
}

/// The time label for now; a clock before the epoch counts as second 0.
pub fn chrono_now() -> (s: String)
    ensures
        exists|now: Option<u64>| s@ == clock_label_text(now),
{
    let now = unix_seconds();
    clock_label(now)
}

} // verus!
