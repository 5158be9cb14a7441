//! What is decided by numbers that are computed in floating point.
use vstd::prelude::*;

verus! {

/// Where a floating-point number lies. It stands for the number wherever only that matters.
#[derive(Debug, Clone, Copy, PartialEq, Eq, Structural)]
pub enum Real {
    /// Infinite, or not a number.
    NotFinite,
    Negative,
    Zero,
    /// More than zero and at most one.
    UpToOne,
    AboveOne,
}

impl Real {
    pub open spec fn positive(self) -> bool {
        self is UpToOne || self is AboveOne
    }

    /// More than zero, and finite.
    pub fn is_positive(&self) -> (r: bool)
        ensures
            r == self.positive(),
    {
        *self == Real::UpToOne || *self == Real::AboveOne
    }
}

/// Positive numbers are those above zero that are finite.
pub proof fn law_positive_numbers(r: Real)
    ensures
        r.positive() <==> r != Real::NotFinite && r != Real::Negative && r != Real::Zero,
{
}

} // verus!
