//! Sums over sequences.
use vstd::prelude::*;

verus! {

/// The sum of `f` over the items of `s`.
pub open spec fn sum_by<A>(s: Seq<A>, f: spec_fn(A) -> int) -> int
    decreases s.len(),
{
    if s.len() == 0 {
        0
    } else {
        f(s[0]) + sum_by(s.drop_first(), f)
    }
}

/// The sums of two sequences add up.
pub proof fn lemma_sum_append<A>(a: Seq<A>, b: Seq<A>, f: spec_fn(A) -> int)
    ensures
        sum_by(a + b, f) == sum_by(a, f) + sum_by(b, f),
    decreases a.len(),
{
    if a.len() == 0 {
        assert(a + b =~= b);
    } else {
        assert((a + b).drop_first() =~= a.drop_first() + b);
        lemma_sum_append(a.drop_first(), b, f);
    }
}

/// An item at the end adds its value.
pub proof fn lemma_sum_push<A>(s: Seq<A>, x: A, f: spec_fn(A) -> int)
    ensures
        sum_by(s.push(x), f) == sum_by(s, f) + f(x),
{
    let one = seq![x];
    assert(s.push(x) =~= s + one);
    lemma_sum_append(s, one, f);
    assert(one.drop_first() =~= Seq::<A>::empty());
    assert(sum_by(one.drop_first(), f) == 0);
}

/// Another item in the place of one adds the difference.
pub proof fn lemma_sum_update<A>(s: Seq<A>, i: int, x: A, f: spec_fn(A) -> int)
    requires
        0 <= i < s.len(),
    ensures
        sum_by(s.update(i, x), f) == sum_by(s, f) - f(s[i]) + f(x),
    decreases s.len(),
{
    if i == 0 {
        assert(s.update(0, x).drop_first() =~= s.drop_first());
    } else {
        assert(s.update(i, x).drop_first() =~= s.drop_first().update(i - 1, x));
        lemma_sum_update(s.drop_first(), i - 1, x, f);
    }
}

/// Where no item counts less than nothing, neither does the sum, and no item counts more
/// than the sum.
pub proof fn lemma_sum_nonnegative<A>(s: Seq<A>, f: spec_fn(A) -> int)
    requires
        forall|i: int| 0 <= i < s.len() ==> #[trigger] f(s[i]) >= 0,
    ensures
        sum_by(s, f) >= 0,
        forall|i: int| 0 <= i < s.len() ==> #[trigger] f(s[i]) <= sum_by(s, f),
    decreases s.len(),
{
    if s.len() > 0 {
        let rest = s.drop_first();
        assert forall|i: int| 0 <= i < rest.len() implies #[trigger] f(rest[i]) >= 0 by {
            assert(rest[i] == s[i + 1]);
        }
        lemma_sum_nonnegative(rest, f);
        assert forall|i: int| 0 <= i < s.len() implies #[trigger] f(s[i]) <= sum_by(s, f) by {
            if i > 0 {
                assert(rest[i - 1] == s[i]);
            }
        }
    }
}

} // verus!
