//! Patterns of rates: what happens to a packet depends on how often it has happened in a row
//! before.
use vstd::prelude::*;

verus! {

/// The rate for a packet after the same has happened `streak` times in a row. A pattern
/// repeats its last value: `[a, b, c]` means `[a, b, c, c, c, ..]`. An empty pattern has no
/// rate, and nothing ever happens by it.
pub open spec fn rate_at<R>(pattern: Seq<R>, streak: nat) -> Option<R> {
    if pattern.len() == 0 {
        None
    } else if streak < pattern.len() {
        Some(pattern[streak as int])
    } else {
        Some(pattern.last())
    }
}

/// The rate for a packet after the same has happened `streak` times in a row.
pub fn rate_of<R: Copy>(pattern: &Vec<R>, streak: usize) -> (rate: Option<R>)
    ensures
        rate == rate_at(pattern@, streak as nat),
{
    if pattern.len() == 0 {
        None
    } else if streak < pattern.len() {
        Some(pattern[streak])
    } else {
        Some(pattern[pattern.len() - 1])
    }
}

/// It can come out as `outcome` whether something happens at `rate`, where `draw` is asked.
pub open spec fn may_come_out<R, F: Fn(R) -> bool>(
    draw: F,
    rate: Option<R>,
    outcome: bool,
) -> bool {
    match rate {
        Some(r) => call_ensures(draw, (r,), outcome),
        None => !outcome,
    }
}

/// `draw` can be asked of `rate`, if there is one.
pub open spec fn can_draw<R, F: Fn(R) -> bool>(draw: F, rate: Option<R>) -> bool {
    rate is Some ==> call_requires(draw, (rate->0,))
}

/// Whether something happens at `rate`. Without a rate it does not.
pub fn happens<R, F: Fn(R) -> bool>(draw: &F, rate: Option<R>) -> (outcome: bool)
    requires
        can_draw(*draw, rate),
    ensures
        may_come_out(*draw, rate, outcome),
{
    match rate {
        Some(r) => draw(r),
        None => false,
    }
}

/// How often it has happened in a row, once it has come out as `outcome`.
pub open spec fn next_streak(streak: nat, outcome: bool) -> nat {
    if outcome {
        streak + 1
    } else {
        0
    }
}

/// Past its end a pattern goes on with its last value, and a pattern of a single value is
/// that value for every packet.
pub proof fn law_pattern_repeats_its_last_value<R>(pattern: Seq<R>, streak: nat)
    requires
        pattern.len() > 0,
    ensures
        streak >= pattern.len() - 1 ==> rate_at(pattern, streak) == Some(pattern.last()),
        pattern.len() == 1 ==> rate_at(pattern, streak) == Some(pattern[0]),
{
}

/// A pattern gives its values one by one, as the streak grows, then its last one; without
/// values there is no rate and nothing happens. A streak grows by one when it happens again
/// and starts over when it does not.
pub proof fn law_pattern_is_gone_through_in_turn<R>(pattern: Seq<R>, streak: nat)
    ensures
        streak < pattern.len() ==> rate_at(pattern, streak) == Some(pattern[streak as int]),
        streak >= pattern.len() && pattern.len() > 0 ==> rate_at(pattern, streak) == Some(
            pattern[pattern.len() - 1],
        ),
        pattern.len() == 0 ==> rate_at(pattern, streak) is None,
        next_streak(streak, true) == streak + 1,
        next_streak(streak, false) == 0,
{
}

/// Where `draw` has but one answer for a rate, that answer decides; without a rate, nothing
/// happens.
pub proof fn law_draw_decides<R, F: Fn(R) -> bool>(draw: F, rate: Option<R>, outcome: bool)
    requires
        may_come_out(draw, rate, outcome),
    ensures
        rate is None ==> !outcome,
        rate is Some ==> call_ensures(draw, (rate->0,), outcome),
{
}

} // verus!
