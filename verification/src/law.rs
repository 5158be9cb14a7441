//! Arithmetic that is handed in.
//!
//! Rates and control laws are computed in floating point, outside this crate. A cell
//! receives each of them as a closure; what the cell does is stated in terms of what that
//! closure returns.
use crate::time::{Duration, MAX_DURATION};
use vstd::prelude::*;

verus! {

/// `f` can be called with any arguments.
pub open spec fn callable<A, B, C, F: Fn(A, B) -> C>(f: F) -> bool {
    forall|a: A, b: B| #[trigger] call_requires(f, (a, b))
}

/// `f` computes `g`: whatever it returns for `(a, b)` is `g(a, b)`.
pub open spec fn computes<A, B, C, F: Fn(A, B) -> C>(f: F, g: spec_fn(A, B) -> C) -> bool {
    forall|a: A, b: B, c: C| #[trigger] call_ensures(f, (a, b), c) ==> c == g(a, b)
}

/// `f` can be called with any arguments, and never returns more than the longest span.
pub open spec fn is_timing<A, B, F: Fn(A, B) -> Duration>(f: F) -> bool {
    &&& callable(f)
    &&& forall|a: A, b: B, d: Duration| #[trigger]
        call_ensures(f, (a, b), d) ==> d <= MAX_DURATION
}

/// `f` can be asked of anything.
pub open spec fn answers<A, F: Fn(&A) -> bool>(f: F) -> bool {
    forall|a: &A| #[trigger] call_requires(f, (a,))
}

/// `f` tests for `g`: whatever it answers of `a` is `g(a)`.
pub open spec fn tests_for<A, F: Fn(&A) -> bool>(f: F, g: spec_fn(A) -> bool) -> bool {
    forall|a: &A, b: bool| #[trigger] call_ensures(f, (a,), b) ==> b == g(*a)
}

} // verus!
