use vstd::prelude::*;
use std::time::{Duration, SystemTime};

verus! {

/// Wall-clock instants, carried through the library without being inspected.
#[verifier::external_type_specification]
#[verifier::external_body]
pub struct ExSystemTime(std::time::SystemTime);

/// `SystemTime` is `Copy`: cloning gives back the same instant.
pub assume_specification[ <std::time::SystemTime as core::clone::Clone>::clone ](t: &SystemTime) -> (r: SystemTime)
    ensures
        r == *t,
;

/// `SystemTime::now()`: the current wall-clock time. Nothing is promised about
/// the value: it depends on the machine's clock.
#[verifier::external_body]
pub(crate) fn system_now() -> SystemTime {
    SystemTime::now()
}

/// The instant `secs` seconds before `now`, as `now.checked_sub` gives it; `None`
/// when that instant cannot be represented.
pub uninterp spec fn earlier_by(now: SystemTime, secs: u64) -> Option<SystemTime>;

/// `SystemTime::checked_sub` with a duration of `secs` whole seconds: the result
/// is named `earlier_by(now, secs)`.
#[verifier::external_body]
pub(crate) fn instant_before(now: &SystemTime, secs: u64) -> (r: Option<SystemTime>)
    ensures
        r == earlier_by(*now, secs),
{
    now.checked_sub(Duration::from_secs(secs))
}

/// Whether `t` is a later instant than `u`, as `SystemTime` orders instants.
pub uninterp spec fn time_after(t: SystemTime, u: SystemTime) -> bool;

/// `t > u` on `SystemTime` (`PartialOrd::gt`): the result is named `time_after(t, u)`.
#[verifier::external_body]
pub(crate) fn is_later(t: &SystemTime, u: &SystemTime) -> (r: bool)
    ensures
        r == time_after(*t, *u),
{
    *t > *u
}

/// Whether `t` lies within the minute before `now`: later than the instant sixty
/// seconds before `now`. When that instant is earlier than any time the clock
/// represents, every `t` lies within the minute.
pub open spec fn updated_recently(t: SystemTime, now: SystemTime) -> bool {
    match earlier_by(now, 60) {
        Some(m) => time_after(t, m),
        None => true,
    }
}

/// Whether `t` lies within the minute before `now` (see `updated_recently`).
pub fn is_recent(t: &SystemTime, now: &SystemTime) -> (r: bool)
    ensures
        r == updated_recently(*t, *now),
{
    match instant_before(now, 60) {
        Some(m) => is_later(t, &m),
        None => true,
    }
}

/// The whole seconds of a duration, as `Duration::as_secs` gives them.
pub uninterp spec fn secs_of(d: Duration) -> u64;

/// `Duration::as_secs`: the result is named `secs_of(d)`.
#[verifier::external_body]
pub(crate) fn whole_seconds(d: &Duration) -> (r: u64)
    ensures
        r == secs_of(*d),
{
    d.as_secs()
}

/// The time from the Unix epoch to `t`, as `t.duration_since(UNIX_EPOCH)` gives
/// it; `None` when `t` is before the epoch.
pub uninterp spec fn since_epoch(t: SystemTime) -> Option<Duration>;

/// `SystemTime::duration_since(UNIX_EPOCH)`, with its error (`t` before the epoch)
/// as `None`: the result is named `since_epoch(t)`.
#[verifier::external_body]
pub(crate) fn time_since_epoch(t: &SystemTime) -> (r: Option<Duration>)
    ensures
        r == since_epoch(*t),
{
    match t.duration_since(SystemTime::UNIX_EPOCH) {
        Ok(d) => Some(d),
        Err(_) => None,
    }
}

/// The whole seconds from the Unix epoch to `t`; `None` when `t` is before the epoch.
pub open spec fn epoch_secs(t: SystemTime) -> Option<u64> {
    match since_epoch(t) {
        Some(d) => Some(secs_of(d)),
        None => None,
    }
}

/// The whole seconds from the Unix epoch to `t` (see `epoch_secs`).
pub fn unix_secs(t: &SystemTime) -> (r: Option<u64>)
    ensures
        r == epoch_secs(*t),
{
    match time_since_epoch(t) {
        Some(d) => Some(whole_seconds(&d)),
        None => None,
    }
}

} // verus!
