//! The time of day.

use vstd::prelude::*;

verus! {

/// `SystemTime::elapsed` of the Unix epoch: the whole seconds since then, nothing where the clock
/// stands before it. The result depends on the clock, so nothing is stated of it.
#[verifier::external_body]
fn seconds_since_epoch() -> (r: Option<u64>) {
    std::time::UNIX_EPOCH.elapsed().ok().map(|elapsed| elapsed.as_secs())
}

/// Seconds as a signed number, by wrapping around; zero where there are none.
pub open spec fn timestamp(seconds: Option<u64>) -> int {
    match seconds {
        None => 0,
        Some(s) => if s <= i64::MAX {
            s as int
        } else {
            s - 0x1_0000_0000_0000_0000
        },
    }
}

/// Seconds since the epoch as a timestamp.
pub fn unix_ts(seconds: Option<u64>) -> (r: i64)
    ensures
        r == timestamp(seconds),
{
    match seconds {
        None => 0,
        Some(s) => if s <= 0x7fff_ffff_ffff_ffff {
            s as i64
        } else {
            (s as i128 - 0x1_0000_0000_0000_0000i128) as i64
        },
    }
}

/// The time now, in seconds since the Unix epoch; zero where the clock stands before it.
pub fn current_unix_ts() -> (r: i64)
    ensures
        exists|seconds: Option<u64>| r == #[trigger] timestamp(seconds),
{
    let seconds = seconds_since_epoch();
    unix_ts(seconds)
}

} // verus!
