//! Sums over sequences, and their independence of the order of the items.

use vstd::prelude::*;

verus! {

/// The sum of the weights of the items of `s`.
pub open spec fn sum_of<T>(s: Seq<T>, weight: spec_fn(T) -> nat) -> nat
    decreases s.len(),
{
    if s.len() == 0 {
        0
    } else {
        sum_of(s.drop_last(), weight) + weight(s.last())
    }
}

/// The sum of the weights of the first `n` items of `s`.
pub open spec fn sum_before<T>(s: Seq<T>, weight: spec_fn(T) -> nat, n: int) -> nat {
    sum_of(s.take(n), weight)
}

/// Taking one more item adds its weight.
pub proof fn lemma_sum_before_step<T>(s: Seq<T>, weight: spec_fn(T) -> nat, n: int)
    requires
        0 <= n < s.len(),
    ensures
        sum_before(s, weight, n + 1) == sum_before(s, weight, n) + weight(s[n]),
        sum_before(s, weight, 0) == 0,
{
    assert(s.take(n + 1).drop_last() =~= s.take(n));
    assert(s.take(0).len() == 0);
}

/// The sum over all items is the sum before the end.
pub proof fn lemma_sum_before_all<T>(s: Seq<T>, weight: spec_fn(T) -> nat)
    ensures
        sum_before(s, weight, s.len() as int) == sum_of(s, weight),
{
    assert(s.take(s.len() as int) =~= s);
}

/// The sums before two positions grow with the position.
pub proof fn lemma_sum_before_monotone<T>(s: Seq<T>, weight: spec_fn(T) -> nat, i: int, j: int)
    requires
        0 <= i <= j <= s.len(),
    ensures
        sum_before(s, weight, i) <= sum_before(s, weight, j),
    decreases j - i,
{
    if i < j {
        lemma_sum_before_monotone(s, weight, i, j - 1);
        lemma_sum_before_step(s, weight, j - 1);
    }
}

/// Taking one item out lowers the sum by its weight.
pub proof fn lemma_sum_remove<T>(s: Seq<T>, weight: spec_fn(T) -> nat, i: int)
    requires
        0 <= i < s.len(),
    ensures
        sum_of(s, weight) == sum_of(s.remove(i), weight) + weight(s[i]),
    decreases s.len(),
{
    if i == s.len() - 1 {
        assert(s.remove(i) =~= s.drop_last());
    } else {
        lemma_sum_remove(s.drop_last(), weight, i);
        assert(s.remove(i).drop_last() =~= s.drop_last().remove(i));
        assert(s.remove(i).last() == s.last());
    }
}

/// Two sequences that hold the same items, in whatever order, have the same
/// sum.
pub proof fn lemma_sum_permutation<T>(a: Seq<T>, b: Seq<T>, weight: spec_fn(T) -> nat)
    requires
        a.to_multiset() == b.to_multiset(),
    ensures
        sum_of(a, weight) == sum_of(b, weight),
    decreases a.len(),
{
    a.to_multiset_ensures();
    b.to_multiset_ensures();
    if a.len() == 0 {
        assert(b.len() == 0);
    } else {
        let x = a.last();
        assert(a.contains(x));
        assert(b.to_multiset().count(x) > 0);
        assert(b.contains(x));
        let i = choose|i: int| 0 <= i < b.len() && b[i] == x;
        let a1 = a.drop_last();
        let b1 = b.remove(i);
        assert(a.remove(a.len() - 1) =~= a1);
        assert(a1.to_multiset() =~= a.to_multiset().remove(x));
        assert(b1.to_multiset() =~= b.to_multiset().remove(x));
        lemma_sum_permutation(a1, b1, weight);
        lemma_sum_remove(b, weight, i);
    }
}

} // verus!
