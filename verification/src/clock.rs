//! Readings of the system clock. Nothing is stated of what the clock reads.
use vstd::prelude::*;

verus! {

#[verifier::external_type_specification]
#[verifier::external_body]
pub struct ExSystemTime(std::time::SystemTime);

/// `SystemTime::now`: the clock's reading, of which nothing is stated.
#[verifier::external_body]
fn system_now() -> std::time::SystemTime {
    std::time::SystemTime::now()
}

/// `SystemTime::duration_since(UNIX_EPOCH)`, with the error for a time before the
/// epoch made `None`; nothing is stated of the result.
#[verifier::external_body]
fn since_epoch(t: std::time::SystemTime) -> Option<std::time::Duration> {
    t.duration_since(std::time::UNIX_EPOCH).ok()
}

/// `Duration::as_secs`; nothing is stated of the result.
#[verifier::external_body]
fn whole_seconds(d: std::time::Duration) -> u64 {
    d.as_secs()
}

/// `Duration::as_nanos`; nothing is stated of the result.
#[verifier::external_body]
fn whole_nanos(d: std::time::Duration) -> u128 {
    d.as_nanos()
}

/// `Duration::subsec_nanos`; the documentation says it is below one billion.
#[verifier::external_body]
fn nanos_of_second(d: std::time::Duration) -> (r: u32)
    ensures
        r < 1_000_000_000,
{
    d.subsec_nanos()
}

/// The seconds since the Unix epoch, or 0 for a clock set before it.
pub fn unix_now() -> u64 {
    match since_epoch(system_now()) {
        Some(d) => whole_seconds(d),
        None => 0,
    }
}

/// The nanoseconds since the Unix epoch, or 0 for a clock set before it.
pub fn unix_nanos() -> u128 {
    match since_epoch(system_now()) {
        Some(d) => whole_nanos(d),
        None => 0,
    }
}

/// The nanoseconds within the current second, or 0 for a clock set before the epoch.
pub fn subsecond_nanos() -> (r: u32)
    ensures
        r < 1_000_000_000,
{
    match since_epoch(system_now()) {
        Some(d) => nanos_of_second(d),
        None => 0,
    }
}

} // verus!
