//! A configuration value with a validity period, and what is expected after it.
use crate::time::{after, reachable, Duration, Instant};
use vstd::prelude::*;

verus! {

/// The value in force, the one before it and the one to come.
#[derive(Debug)]
pub struct IncomingConfigs<C: Clone> {
    fallback: Option<C>,
    current: Option<(Instant, Instant, C)>,
    next: Option<C>,
}

/// `a`, or `b` where there is no `a`.
pub open spec fn first_of<C>(a: Option<C>, b: C) -> Option<C> {
    match a {
        Some(_) => a,
        None => Some(b),
    }
}

impl<C: Clone> IncomingConfigs<C> {
    pub closed spec fn fallback(self) -> Option<C> {
        self.fallback
    }

    /// The value in force with the period `[since, expiry)` for which it is.
    pub closed spec fn current(self) -> Option<(Instant, Instant, C)> {
        self.current
    }

    pub closed spec fn next(self) -> Option<C> {
        self.next
    }

    /// The value at `timestamp`.
    pub open spec fn at(self, timestamp: Instant) -> Option<C> {
        match self.current() {
            Some((since, expiry, value)) => if since <= timestamp < expiry {
                Some(value)
            } else if expiry <= timestamp {
                first_of(self.next(), value)
            } else {
                first_of(self.fallback(), value)
            },
            None => self.fallback(),
        }
    }

    pub fn new() -> (c: Self)
        ensures
            c.fallback() is None,
            c.current() is None,
            c.next() is None,
    {
        IncomingConfigs { fallback: None, current: None, next: None }
    }

    pub fn reset(&mut self)
        ensures
            final(self).fallback() is None,
            final(self).current() is None,
            final(self).next() is None,
    {
        self.current = None;
        self.next = None;
        self.fallback = None;
    }

    /// The value is `current_value` during the period
    /// `[valid_since, valid_since + valid_duration)`, and is expected to be `next_value`, if
    /// there is one, from then on.
    pub fn update(
        &mut self,
        current_value: C,
        next_value: Option<C>,
        valid_since: Instant,
        valid_duration: Duration,
    )
        requires
            reachable(valid_since, valid_duration),
        ensures
            final(self).fallback() == match old(self).current() {
                Some((_, _, value)) => Some(value),
                None => None::<C>,
            },
            final(self).current() == Some(
                (valid_since, (valid_since + valid_duration) as i128, current_value),
            ),
            final(self).next() == next_value,
            forall|t: Instant|
                valid_since <= t < valid_since + valid_duration ==> #[trigger] final(self).at(t)
                    == Some(current_value),
            forall|t: Instant| (#[trigger] final(self).at(t)) is Some,
    {
        self.fallback = match self.current.take() {
            Some((_, _, value)) => Some(value),
            None => None,
        };
        self.current = Some((valid_since, after(valid_since, valid_duration), current_value));
        self.next = next_value;
    }

    /// A copy of the value at `timestamp`. `None` only if there has been no `update` since
    /// the last `reset`.
    pub fn get_current(&self, timestamp: Instant) -> (value: Option<C>)
        ensures
            match self.at(timestamp) {
                Some(v) => value is Some && cloned(v, value->0),
                None => value is None,
            },
    {
        match &self.current {
            Some((valid_since, expiry, value)) => {
                let preferred: &Option<C> = if *valid_since <= timestamp && timestamp < *expiry {
                    &None
                } else if *expiry <= timestamp {
                    &self.next
                } else {
                    &self.fallback
                };
                match preferred {
                    Some(v) => Some(v.clone()),
                    None => Some(value.clone()),
                }
            },
            None => match &self.fallback {
                Some(v) => Some(v.clone()),
                None => None,
            },
        }
    }
}

/// A value is in force for its period. From its end on it is the one that is expected next,
/// and before its begin the one before; where there is none of these, the value itself.
pub proof fn law_value_is_in_force_for_its_period<C: Clone>(
    c: IncomingConfigs<C>,
    since: Instant,
    expiry: Instant,
    value: C,
    t: Instant,
)
    requires
        c.current() == Some((since, expiry, value)),
        since <= expiry,
    ensures
        since <= t < expiry ==> c.at(t) == Some(value),
        t >= expiry && c.next() is Some ==> c.at(t) == c.next(),
        t < since && c.fallback() is Some ==> c.at(t) == c.fallback(),
        t >= expiry && c.next() is None ==> c.at(t) == Some(value),
        t < since && c.fallback() is None ==> c.at(t) == Some(value),
{
}

} // verus!
