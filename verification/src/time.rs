//! The clock.

use vstd::prelude::*;

verus! {

/// Declares `std::time::SystemTime`, a reading of the system clock.
/// Nothing is known of what is inside.
#[verifier::external_type_specification]
#[verifier::external_body]
pub struct ExSystemTime(std::time::SystemTime);

/// Calls `SystemTime::now`. Nothing is promised of the reading: the clock
/// may be set to any time.
#[verifier::external_body]
pub(crate) fn clock_now() -> (now: std::time::SystemTime)
{
    std::time::SystemTime::now()
}

/// Calls `SystemTime::duration_since` with the Unix epoch. Nothing is
/// promised of the span; there is none where the reading lies before the
/// epoch.
#[verifier::external_body]
pub(crate) fn since_epoch(now: &std::time::SystemTime) -> (span: Option<std::time::Duration>)
{
    now.duration_since(std::time::UNIX_EPOCH).ok()
}

/// Calls `Duration::as_millis`. Nothing is promised of the count.
#[verifier::external_body]
pub(crate) fn whole_millis(span: &std::time::Duration) -> (millis: u128)
{
    span.as_millis()
}

/// Calls `Duration::as_secs`. Nothing is promised of the count.
#[verifier::external_body]
pub(crate) fn whole_secs(span: &std::time::Duration) -> (secs: u64)
{
    span.as_secs()
}

/// Milliseconds since the Unix epoch, by the system clock: 0 where the
/// clock stands before the epoch, and the largest number where the count
/// is larger.
pub fn get_millis() -> (now: u64)
{
    let reading = clock_now();
    match since_epoch(&reading) {
        Some(span) => {
            let millis = whole_millis(&span);
            if millis > 0xFFFF_FFFF_FFFF_FFFF {
                0xFFFF_FFFF_FFFF_FFFF
            } else {
                millis as u64
            }
        },
        None => 0,
    }
}

/// Seconds since the Unix epoch, by the system clock: 0 where the clock
/// stands before the epoch.
pub fn get_unix_timestamp() -> (now: u64)
{
    let reading = clock_now();
    match since_epoch(&reading) {
        Some(span) => whole_secs(&span),
        None => 0,
    }
}

} // verus!
