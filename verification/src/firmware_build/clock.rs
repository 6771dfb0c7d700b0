//! The wall clock.

use vstd::prelude::*;

verus! {

/// `SystemTime::elapsed` since the epoch, in whole milliseconds; `None` where the clock is
/// set before the epoch. Nothing is said of what it reads.
#[verifier::external_body]
fn since_epoch() -> (r: Option<u128>)
{
    std::time::UNIX_EPOCH.elapsed().ok().map(|d| d.as_millis())
}

/// A reading of the clock as it is stamped: its last 64 bits, and zero where there is
/// none.
pub fn stamp_of(reading: Option<u128>) -> (r: u64)
    ensures
        r == (match reading {
            Some(ms) => ms as int % 0x1_0000_0000_0000_0000,
            None => 0,
        }),
{
    match reading {
        Some(ms) => (ms % 0x1_0000_0000_0000_0000) as u64,
        None => 0,
    }
}

/// The milliseconds since the epoch, as the clock reads now.
pub fn now_utc_ms() -> (r: u64)
{
    stamp_of(since_epoch())
}

} // verus!
