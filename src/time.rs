use vstd::prelude::*;

verus! {

/// One minute in nanoseconds.
pub const MINUTE_NS: u64 = 60_000_000_000;

/// One day in nanoseconds.
pub const DAY_NS: u64 = 86_400_000_000_000;

/// One week in nanoseconds.
pub const WEEK_NS: u64 = 604_800_000_000_000;

/// One day in seconds.
pub const DAY_SECS: u64 = 86_400;

/// One week in seconds.
pub const WEEK_SECS: u64 = 604_800;

/// Nanoseconds in one second.
pub const SEC_NS: u64 = 1_000_000_000;

} // verus!
