//! Sums over sequences.
use vstd::prelude::*;

verus! {

/// The sum of `f` over the elements of `s`.
pub open spec fn sum_by<T>(s: Seq<T>, f: spec_fn(T) -> int) -> int
    decreases s.len(),
{
    if s.len() == 0 {
        0
    } else {
        sum_by(s.drop_last(), f) + f(s.last())
    }
}

/// The sum over a sequence with one more element.
pub(crate) proof fn lemma_sum_push<T>(s: Seq<T>, x: T, f: spec_fn(T) -> int)
    ensures
        sum_by(s.push(x), f) == sum_by(s, f) + f(x),
{
    assert(s.push(x).drop_last() =~= s);
}

/// The sum over the first `i + 1` elements.
pub(crate) proof fn lemma_sum_step<T>(s: Seq<T>, i: int, f: spec_fn(T) -> int)
    requires
        0 <= i < s.len(),
    ensures
        sum_by(s.take(i + 1), f) == sum_by(s.take(i), f) + f(s[i]),
{
    assert(s.take(i + 1).drop_last() =~= s.take(i));
}

/// The sum over two sequences, one behind the other.
pub(crate) proof fn lemma_sum_concat<T>(a: Seq<T>, b: Seq<T>, f: spec_fn(T) -> int)
    ensures
        sum_by(a + b, f) == sum_by(a, f) + sum_by(b, f),
    decreases b.len(),
{
    if b.len() == 0 {
        assert(a + b =~= a);
    } else {
        assert((a + b).drop_last() =~= a + b.drop_last());
        lemma_sum_concat(a, b.drop_last(), f);
    }
}

/// The sum does not depend on the direction.
pub(crate) proof fn lemma_sum_reverse<T>(s: Seq<T>, f: spec_fn(T) -> int)
    ensures
        sum_by(s.reverse(), f) == sum_by(s, f),
    decreases s.len(),
{
    if s.len() > 0 {
        lemma_sum_reverse(s.drop_last(), f);
        assert(s.reverse() =~= seq![s.last()] + s.drop_last().reverse());
        lemma_sum_concat(seq![s.last()], s.drop_last().reverse(), f);
        assert(seq![s.last()].drop_last() =~= Seq::empty());
        assert(sum_by(seq![s.last()], f) == sum_by(seq![s.last()].drop_last(), f) + f(s.last()));
    }
}

/// Where no element counts below zero, a prefix sums to no more than the whole.
pub(crate) proof fn lemma_sum_prefix<T>(s: Seq<T>, i: int, f: spec_fn(T) -> int)
    requires
        0 <= i <= s.len(),
        forall|j: int| 0 <= j < s.len() ==> 0 <= #[trigger] f(s[j]),
    ensures
        0 <= sum_by(s.take(i), f) <= sum_by(s, f),
    decreases s.len(),
{
    if s.len() == 0 {
        assert(s.take(i) =~= s);
    } else if i == s.len() {
        assert(s.take(i) =~= s);
        lemma_sum_prefix(s.drop_last(), i - 1, f);
        assert(s.drop_last().take(i - 1) =~= s.drop_last());
        assert(f(s[i - 1]) >= 0);
    } else {
        lemma_sum_prefix(s.drop_last(), i, f);
        assert(s.drop_last().take(i) =~= s.take(i));
        assert(f(s[s.len() - 1]) >= 0);
    }
}

/// Two sequences that agree under `f` and `g`, element by element, have the same sum.
pub(crate) proof fn lemma_sum_same<T, U>(s: Seq<T>, t: Seq<U>, f: spec_fn(T) -> int, g: spec_fn(U) -> int)
    requires
        s.len() == t.len(),
        forall|i: int| 0 <= i < s.len() ==> #[trigger] f(s[i]) == g(t[i]),
    ensures
        sum_by(s, f) == sum_by(t, g),
    decreases s.len(),
{
    if s.len() > 0 {
        assert(f(s[s.len() - 1]) == g(t[s.len() - 1]));
        assert forall|i: int| 0 <= i < s.drop_last().len() implies #[trigger] f(s.drop_last()[i])
            == g(t.drop_last()[i]) by {
            assert(f(s[i]) == g(t[i]));
        }
        lemma_sum_same(s.drop_last(), t.drop_last(), f, g);
    }
}

} // verus!
