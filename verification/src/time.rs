//! The logical clock that every cell runs on.
use vstd::prelude::*;

verus! {

/// A point on the logical clock, in nanoseconds from an arbitrary origin.
pub type Instant = i128;

/// A span of time, in nanoseconds.
pub type Duration = u128;

/// Nanoseconds in a millisecond.
pub const MILLISECOND: Duration = 1_000_000;

/// Nanoseconds in a second.
pub const SECOND: Duration = 1_000_000_000;

/// Ten years: the time to wait for something that is not expected to happen.
pub const LARGE_DURATION: Duration = 315_360_000_000_000_000;

/// The longest span that is ever waited for: 2^64 seconds.
pub const MAX_DURATION: Duration = 18_446_744_073_709_551_616_000_000_000;

/// `t` is less than 2^64 seconds away from the origin of the clock.
pub open spec fn on_clock(t: Instant) -> bool {
    -MAX_DURATION < t < MAX_DURATION
}

/// How long `later` comes after `earlier`; zero if it does not.
pub open spec fn elapsed(later: Instant, earlier: Instant) -> Duration {
    if later > earlier {
        (later - earlier) as u128
    } else {
        0
    }
}

/// The larger of two instants.
pub open spec fn later_of(a: Instant, b: Instant) -> Instant {
    if a >= b {
        a
    } else {
        b
    }
}

/// How long `later` comes after `earlier`; zero if it does not.
pub fn duration_since(later: Instant, earlier: Instant) -> (d: Duration)
    ensures
        d == elapsed(later, earlier),
        later > earlier ==> d == later - earlier,
{
    if later <= earlier {
        return 0;
    }
    if (later < 0) == (earlier < 0) {
        (later - earlier) as u128
    } else {
        // Here `later` is not negative and `earlier` is.
        (later as u128) + ((-(earlier + 1)) as u128) + 1
    }
}

/// The larger of two instants.
pub fn latest(a: Instant, b: Instant) -> (r: Instant)
    ensures
        r == later_of(a, b),
{
    if a >= b {
        a
    } else {
        b
    }
}

/// The larger of two spans.
pub open spec fn longer_of(a: Duration, b: Duration) -> Duration {
    if a >= b {
        a
    } else {
        b
    }
}

/// The larger of two spans.
pub fn longest(a: Duration, b: Duration) -> (r: Duration)
    ensures
        r == longer_of(a, b),
{
    if a >= b {
        a
    } else {
        b
    }
}

/// Whether `t + d` is an instant that the clock can hold.
pub open spec fn reachable(t: Instant, d: Duration) -> bool {
    t + d <= i128::MAX
}

/// The instant `d` after `t`.
pub fn after(t: Instant, d: Duration) -> (r: Instant)
    requires
        reachable(t, d),
    ensures
        r == t + d,
{
    if d <= 0x7fff_ffff_ffff_ffff_ffff_ffff_ffff_ffff {
        t + (d as i128)
    } else {
        // Only a negative `t` leaves room for a span this long.
        let rest: u128 = d - 0x7fff_ffff_ffff_ffff_ffff_ffff_ffff_ffff;
        let half: i128 = t + 0x7fff_ffff_ffff_ffff_ffff_ffff_ffff_ffff;
        if rest <= 0x7fff_ffff_ffff_ffff_ffff_ffff_ffff_ffff {
            half + (rest as i128)
        } else {
            half + 0x7fff_ffff_ffff_ffff_ffff_ffff_ffff_ffff + 1
        }
    }
}

/// The instant `d` before `t`.
pub fn before(t: Instant, d: Duration) -> (r: Instant)
    requires
        d <= i128::MAX,
        t - d >= i128::MIN,
    ensures
        r == t - d,
{
    t - (d as i128)
}

/// A span and an instant add up to the instant at its end, and no time has passed before an
/// instant has come. The time between two instants is made up of the times to and from one
/// in between.
pub proof fn law_spans_add_up(a: Instant, b: Instant, c: Instant)
    ensures
        a <= b ==> a + elapsed(b, a) == b,
        b <= a ==> elapsed(b, a) == 0,
        a <= b <= c ==> elapsed(c, a) == elapsed(b, a) + elapsed(c, b),
        later_of(a, b) >= a && later_of(a, b) >= b,
        later_of(a, b) == a || later_of(a, b) == b,
{
}

/// The longer of two spans is one of them, and neither is longer.
pub proof fn law_longer_of_two_spans(a: Duration, b: Duration)
    ensures
        longer_of(a, b) >= a && longer_of(a, b) >= b,
        longer_of(a, b) == a || longer_of(a, b) == b,
{
}

} // verus!
