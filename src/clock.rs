use vstd::prelude::*;

verus! {

/// Relies on `std::time::SystemTime::now` and its `duration_since(UNIX_EPOCH)`:
/// the nanoseconds elapsed since the Unix epoch, or `None` where the clock
/// reads earlier than the epoch. Nothing is promised of the reading itself.
#[verifier::external_body]
fn clock_reading() -> (r: Option<u128>) {
    std::time::SystemTime::now().duration_since(std::time::UNIX_EPOCH).ok().map(|d| d.as_nanos())
}

/// The time that a clock reading stands for, in nanoseconds since the epoch:
/// a reading before the epoch counts as the epoch, and one beyond the range of
/// `i64` as its largest value.
pub open spec fn reading_nanos(reading: Option<u128>) -> i64 {
    match reading {
        None => 0,
        Some(n) => if n > i64::MAX as u128 {
            i64::MAX
        } else {
            n as i64
        },
    }
}

/// Turns a reading of the system clock into nanoseconds since the epoch.
pub fn nanos_from_reading(reading: Option<u128>) -> (r: i64)
    ensures
        r == reading_nanos(reading),
        r >= 0,
{
    match reading {
        None => 0,
        Some(n) => if n > i64::MAX as u128 {
            i64::MAX
        } else {
            n as i64
        },
    }
}

/// The current time, in nanoseconds since the Unix epoch.
pub fn now() -> (r: i64)
    ensures
        r >= 0,
{
    nanos_from_reading(clock_reading())
}

} // verus!
