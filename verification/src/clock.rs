//! The clocks the logic reads.
use crate::bundlequeue::QueueContext;
use vstd::prelude::*;

verus! {

/// `bp7::helpers::unix_timestamp`: the current time in seconds since the
/// UNIX epoch. Nothing is promised of the value, which depends on the clock.
#[verifier::external_body]
pub(crate) fn unix_timestamp() -> u64 {
    bp7::helpers::unix_timestamp()
}

/// `bp7::helpers::ts_ms`: the current time in milliseconds since the UNIX
/// epoch. Nothing is promised of the value, which depends on the clock.
#[verifier::external_body]
fn unix_millis() -> u64 {
    bp7::helpers::ts_ms()
}

/// Milliseconds from the UNIX epoch to 2000-01-01, where DTN time starts.
pub const MS1970_TO2K: u64 = 946_684_800_000;

/// The DTN time of a UNIX time in milliseconds: the milliseconds since
/// 2000-01-01, and 0 for any earlier time (a clock that was never set).
pub open spec fn dtn_time_spec(unix_ms: u64) -> u64 {
    if unix_ms >= MS1970_TO2K {
        (unix_ms - MS1970_TO2K) as u64
    } else {
        0
    }
}

/// The DTN time of a UNIX time in milliseconds, saturating at 0 before
/// 2000-01-01.
pub fn dtn_time_of(unix_ms: u64) -> (t: u64)
    ensures
        t == dtn_time_spec(unix_ms),
{
    if unix_ms >= MS1970_TO2K {
        unix_ms - MS1970_TO2K
    } else {
        0
    }
}

/// The current DTN time in milliseconds since 2000-01-01, 0 while the clock
/// reads an earlier time.
pub fn dtn_time_now() -> (t: u64)
    ensures
        exists|unix_ms: u64| t == #[trigger] dtn_time_spec(unix_ms),
{
    let ms = unix_millis();
    let t = dtn_time_of(ms);
    assert(t == dtn_time_spec(ms));
    t
}

/// A queue context holding `extra` and the current time of both clocks.
pub fn context_now<X>(extra: X) -> (ctx: QueueContext<X>)
    ensures
        ctx.extra == extra,
        exists|unix_ms: u64| ctx.dtn_now == #[trigger] dtn_time_spec(unix_ms),
{
    QueueContext { now: unix_timestamp(), dtn_now: dtn_time_now(), extra }
}

} // verus!
