//! Times and durations.
//!
//! A time is a number of nanoseconds on the daemon's monotonic clock; a duration
//! is a number of nanoseconds.

use vstd::prelude::*;

verus! {

/// The nanoseconds of one second.
pub const NANOS_PER_SEC: u64 = 1_000_000_000;

/// The nanoseconds from `earlier` to `later`; none, where `later` comes first.
pub open spec fn elapsed(earlier: u64, later: u64) -> u64 {
    if earlier <= later {
        (later - earlier) as u64
    } else {
        0
    }
}

/// The whole seconds from `earlier` to `later`.
pub open spec fn seconds_between(earlier: u64, later: u64) -> u64 {
    elapsed(earlier, later) / NANOS_PER_SEC
}

/// The nanoseconds from `earlier` to `later`.
pub fn nanos_since(earlier: u64, later: u64) -> (nanos: u64)
    ensures
        nanos == elapsed(earlier, later),
{
    if earlier <= later {
        later - earlier
    } else {
        0
    }
}

/// The whole seconds from `earlier` to `later`.
pub fn seconds_since(earlier: u64, later: u64) -> (seconds: u64)
    ensures
        seconds == seconds_between(earlier, later),
{
    nanos_since(earlier, later) / NANOS_PER_SEC
}

/// The nanoseconds of some whole seconds.
pub fn nanos_of_secs(secs: u64) -> (nanos: u128)
    ensures
        nanos == secs * NANOS_PER_SEC,
{
    assert(secs * NANOS_PER_SEC <= u128::MAX) by (nonlinear_arith)
        requires
            secs <= u64::MAX,
            NANOS_PER_SEC <= u64::MAX,
    ;
    secs as u128 * NANOS_PER_SEC as u128
}

/// What has elapsed leads from the earlier time to the later; where the later comes
/// first, nothing has.
pub proof fn law_what_elapsed_leads_to_the_later_time(earlier: u64, later: u64)
    ensures
        earlier <= later ==> earlier + elapsed(earlier, later) == later,
        later < earlier ==> elapsed(earlier, later) == 0,
{
}

/// Seconds are whole: as many as fit into the time between.
pub proof fn law_seconds_are_whole(earlier: u64, later: u64)
    ensures
        earlier <= later ==> 1_000_000_000 * seconds_between(earlier, later) <= later - earlier
            < 1_000_000_000 * (seconds_between(earlier, later) + 1),
        later < earlier ==> seconds_between(earlier, later) == 0,
{
}

} // verus!
