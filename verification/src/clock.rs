//! Times, in milliseconds on one clock that never goes back.
use vstd::prelude::*;

verus! {

/// A time this much later, or the last one there is.
pub open spec fn spec_later(now: u64, ms: u64) -> u64 {
    if now + ms > u64::MAX {
        u64::MAX
    } else {
        (now + ms) as u64
    }
}

#[verifier::when_used_as_spec(spec_later)]
pub fn later(now: u64, ms: u64) -> (r: u64)
    ensures
        r == later(now, ms),
{
    now.saturating_add(ms)
}

/// Whether at least this long has passed since `start`.
pub open spec fn spec_passed(now: u64, start: u64, ms: u64) -> bool {
    if now >= start {
        now - start >= ms
    } else {
        ms == 0
    }
}

#[verifier::when_used_as_spec(spec_passed)]
pub fn passed(now: u64, start: u64, ms: u64) -> (r: bool)
    ensures
        r == passed(now, start, ms),
{
    now.saturating_sub(start) >= ms
}

/// A later time is that much later, or the last one there is; what has passed has
/// passed at every later time too.
pub proof fn law_time_goes_on(now: u64, start: u64, ms: u64)
    ensures
        now + ms <= u64::MAX ==> later(now, ms) == now + ms,
        now + ms > u64::MAX ==> later(now, ms) == u64::MAX,
        ms > 0 ==> (passed(now, start, ms) <==> now >= start + ms),
        passed(now, start, 0),
{
}

/// Times are reckoned in whole milliseconds, and never beyond the last one there is.
pub proof fn law_times_are_reckoned(now: u64, ms: u64, start: u64, r: u64, over: bool)
    requires
        call_ensures(later, (now, ms), r),
        call_ensures(passed, (now, start, ms), over),
        ms > 0,
    ensures
        now + ms <= u64::MAX ==> r == now + ms,
        now + ms > u64::MAX ==> r == u64::MAX,
        over <==> now >= start + ms,
{
}

} // verus!
