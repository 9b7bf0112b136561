//! Expiry policy: when a volume stops being good, and how old a
//! downloaded file must be to fall under an age cutoff.

use vstd::prelude::*;

verus! {

/// Number of seconds in one day.
pub const SECONDS_PER_DAY: u64 = 86400;

/// The instant (in whole seconds since the epoch) until which a volume
/// created at `now` with a lifetime of `days` days is good.
pub fn compute_expiry(now: u64, days: u32) -> (r: u64)
    requires
        now + days * SECONDS_PER_DAY <= u64::MAX,
    ensures
        r == now + days * SECONDS_PER_DAY,
{
    now + (days as u64) * SECONDS_PER_DAY
}

/// An expiry instant has passed exactly when it lies strictly before
/// `now`; a volume whose expiry equals `now` is still good.
pub fn is_expired(expiry: u64, now: u64) -> (r: bool)
    ensures
        r == (expiry < now),
{
    expiry < now
}

/// The oldest creation instant that an age cutoff of `days` days still
/// rejects: files created at or after `now - days * 86400` are too young.
pub fn age_threshold(now: u64, days: u32) -> (r: u64)
    requires
        days * SECONDS_PER_DAY <= now,
    ensures
        r == now - days * SECONDS_PER_DAY,
{
    now - (days as u64) * SECONDS_PER_DAY
}

/// Whether a file passes the optional age cutoff. A file is rejected
/// only when a threshold was requested and the file is known to have
/// been created at or after it; a file with no known creation time
/// always passes.
pub fn file_age_ok(created: Option<u64>, threshold: Option<u64>) -> (r: bool)
    ensures
        r == !(threshold is Some && created is Some && created->0 >= threshold->0),
{
    match (created, threshold) {
        (Some(c), Some(t)) => c < t,
        _ => true,
    }
}

} // verus!
