//! A configuration value that changes at known points of the logical clock.
use crate::time::Instant;
use vstd::prelude::*;

verus! {

/// The value in force and the one before it.
#[derive(Debug)]
pub struct CurrentConfig<C> {
    last: Option<C>,
    current: Option<(Instant, C)>,
}

impl<C> CurrentConfig<C> {
    /// The value that `current` took the place of.
    pub closed spec fn last(self) -> Option<C> {
        self.last
    }

    /// The latest value, with the time from which it holds.
    pub closed spec fn current(self) -> Option<(Instant, C)> {
        self.current
    }

    /// The value at `timestamp`: the latest one from the time on at which it takes effect,
    /// and the one before it until then. With a single value to choose from, that one.
    pub open spec fn at(self, timestamp: Instant) -> Option<C> {
        match self.current() {
            Some((since, value)) => if timestamp >= since || self.last() is None {
                Some(value)
            } else {
                self.last()
            },
            None => self.last(),
        }
    }

    /// `after` is `self` with one more value.
    pub open spec fn updated(self, value: C, since: Instant, after: Self) -> bool {
        &&& after.current() == Some((since, value))
        &&& after.last() == match self.current() {
            Some((_, previous)) => Some(previous),
            None => None::<C>,
        }
    }

    pub fn new() -> (c: Self)
        ensures
            c.last() is None,
            c.current() is None,
    {
        CurrentConfig { last: None, current: None }
    }

    pub fn reset(&mut self)
        ensures
            final(self).last() is None,
            final(self).current() is None,
    {
        self.current = None;
        self.last = None;
    }

    pub fn update(&mut self, current_value: C, valid_since: Instant)
        ensures
            old(self).updated(current_value, valid_since, *final(self)),
            forall|t: Instant| (#[trigger] final(self).at(t)) is Some,
    {
        self.last = match self.current.take() {
            Some((_, value)) => Some(value),
            None => None,
        };
        self.current = Some((valid_since, current_value));
    }

    /// `update`, and the value that was in force before it.
    pub fn update_get_last(&mut self, current_value: C, valid_since: Instant) -> (last: Option<&C>)
        ensures
            old(self).updated(current_value, valid_since, *final(self)),
            last == match old(self).current() {
                Some((_, value)) => Some(&value),
                None => None::<&C>,
            },
    {
        self.update(current_value, valid_since);
        self.last.as_ref()
    }

    /// The value at `timestamp`. `None` only if there has been no `update` since the last
    /// `reset`.
    pub fn get_current(&self, timestamp: Instant) -> (value: Option<&C>)
        ensures
            value == match self.at(timestamp) {
                Some(v) => Some(&v),
                None => None::<&C>,
            },
    {
        match &self.current {
            Some((valid_since, value)) => {
                if timestamp >= *valid_since {
                    return Some(value);
                }
                match &self.last {
                    Some(last) => Some(last),
                    None => Some(value),
                }
            },
            None => self.last.as_ref(),
        }
    }
}

impl<C> Default for CurrentConfig<C> {
    fn default() -> (c: Self)
        ensures
            c.last() is None,
            c.current() is None,
    {
        CurrentConfig::new()
    }
}

/// Two updates in a row: before the second takes effect the first is in force, and from then
/// on the second.
pub proof fn law_updates_take_effect_in_turn<C>(
    before: CurrentConfig<C>,
    first: C,
    first_since: Instant,
    between: CurrentConfig<C>,
    second: C,
    second_since: Instant,
    after: CurrentConfig<C>,
    timestamp: Instant,
)
    requires
        before.updated(first, first_since, between),
        between.updated(second, second_since, after),
    ensures
        after.at(timestamp) == if timestamp >= second_since {
            Some(second)
        } else {
            Some(first)
        },
{
}

/// The first value that is given holds at all times: there is none before it.
pub proof fn law_first_value_holds_throughout<C>(
    before: CurrentConfig<C>,
    value: C,
    since: Instant,
    after: CurrentConfig<C>,
    timestamp: Instant,
)
    requires
        before.current() is None,
        before.updated(value, since, after),
    ensures
        after.at(timestamp) == Some(value),
{
}

} // verus!
