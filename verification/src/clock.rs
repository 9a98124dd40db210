//! The wall clock, read once per call through `SystemTime`, and the
//! conversions the rest of the library needs from it.

use vstd::prelude::*;

verus! {

/// Time elapsed since the Unix epoch as `(whole seconds, sub-second
/// nanoseconds)`, or `None` when the system clock reads before the epoch.
/// Calls `SystemTime::now().duration_since(UNIX_EPOCH)`; the only fact stated
/// is the documented range of `Duration::subsec_nanos` (below one billion).
/// The value itself depends on the clock.
#[verifier::external_body]
pub(crate) fn epoch_duration() -> (r: Option<(u64, u32)>)
    ensures
        r matches Some((_, nanos)) ==> nanos < 1_000_000_000,
{
    match std::time::SystemTime::now().duration_since(std::time::UNIX_EPOCH) {
        Ok(d) => Some((d.as_secs(), d.subsec_nanos())),
        Err(_) => None,
    }
}

/// Whole milliseconds of a duration, truncated to 64 bits the way
/// `as_millis() as u64` truncates.
pub open spec fn millis_u64(secs: u64, nanos: u32) -> u64 {
    ((secs as int * 1000 + nanos as int / 1_000_000) % 0x1_0000_0000_0000_0000) as u64
}

/// The same duration as a signed value, wrapping the way `as_millis() as i64` does.
pub open spec fn millis_i64(secs: u64, nanos: u32) -> i64 {
    millis_u64(secs, nanos) as i64
}

/// Milliseconds of a reading of the clock (see [`epoch_duration`]): 0 when it
/// read before the epoch.
pub fn epoch_millis(reading: Option<(u64, u32)>) -> (ms: u64)
    ensures
        ms == match reading {
            Some((secs, nanos)) => millis_u64(secs, nanos),
            None => 0u64,
        },
{
    match reading {
        Some((secs, nanos)) => {
            let ms: u128 = secs as u128 * 1000 + (nanos / 1_000_000) as u128;
            (ms % 0x1_0000_0000_0000_0000) as u64
        },
        None => 0,
    }
}

/// Signed milliseconds of a reading of the clock: 0 when it read before the
/// epoch.
pub fn epoch_millis_signed(reading: Option<(u64, u32)>) -> (ms: i64)
    ensures
        ms == match reading {
            Some((secs, nanos)) => millis_i64(secs, nanos),
            None => 0i64,
        },
{
    let low = epoch_millis(reading);
    low as i64
}

/// Milliseconds since the Unix epoch (0 when the clock reads before it).
/// The value is the clock's: nothing is stated of it.
pub fn now_ms() -> u64 {
    epoch_millis(epoch_duration())
}

/// Milliseconds since the Unix epoch as a signed value (0 when the clock
/// reads before it), wrapping the way `as_millis() as i64` does.
pub fn now_ms_signed() -> i64 {
    epoch_millis_signed(epoch_duration())
}

/// Sub-second nanoseconds of the current time (0 when the clock reads before
/// the epoch): a cheap source of entropy.
pub fn subsec_nanos_now() -> (n: u64)
    ensures
        n < 1_000_000_000,
{
    match epoch_duration() {
        Some((_, nanos)) => nanos as u64,
        None => 0,
    }
}

} // verus!
