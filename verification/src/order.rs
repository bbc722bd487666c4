//! The order that sorting goes by.
//!
//! Elements are compared with the operators of `Ord`. What the sorting
//! functions promise about order rests on those operators forming a total
//! order; this module says what that means.

use std::cmp::Ordering;
use vstd::prelude::*;
use vstd::seq_lib::*;
use vstd::std_specs::cmp::PartialOrdSpec;

verus! {

/// `a` is strictly before `b`: what `a < b` computes.
pub open spec fn lt<T: Ord>(a: T, b: T) -> bool {
    a.partial_cmp_spec(&b) == Some(Ordering::Less)
}

/// `a` is not after `b`: `b` is not strictly before `a`.
pub open spec fn le<T: Ord>(a: T, b: T) -> bool {
    !lt(b, a)
}

/// The comparison operators of `T` behave as their specification says, and
/// `le` is a total order on `T`: any two elements are comparable, two
/// elements that are each not after the other are the same element, and the
/// relation is transitive.
pub open spec fn total_order<T: Ord>() -> bool {
    &&& T::obeys_partial_cmp_spec()
    &&& forall|a: T, b: T| #![trigger le(a, b)] le(a, b) || le(b, a)
    &&& forall|a: T, b: T| #![trigger le(a, b), le(b, a)] le(a, b) && le(b, a) ==> a == b
    &&& forall|a: T, b: T, c: T| #![trigger le(a, b), le(b, c)] le(a, b) && le(b, c) ==> le(a, c)
}

/// `s` is in ascending order.
pub open spec fn sorted<T: Ord>(s: Seq<T>) -> bool {
    forall|i: int, j: int| 0 <= i < j < s.len() ==> le(#[trigger] s[i], #[trigger] s[j])
}

/// `x` is not after any element of `s`.
pub open spec fn lower_bound<T: Ord>(x: T, s: Seq<T>) -> bool {
    forall|k: int| 0 <= k < s.len() ==> le(x, #[trigger] s[k])
}

/// On `usize` the order is that of the numbers, and it is total.
pub proof fn lemma_usize_order(a: usize, b: usize)
    ensures
        total_order::<usize>(),
        le(a, b) <==> a <= b,
        lt(a, b) <==> a < b,
{
}

/// Under a total order a sequence in which no element is after its successor
/// is ascending.
pub proof fn lemma_adjacent_sorted<T: Ord>(s: Seq<T>)
    requires
        total_order::<T>(),
        forall|i: int| 0 <= i && i + 1 < s.len() ==> le(#[trigger] s[i], s[i + 1]),
    ensures
        sorted(s),
{
    assert forall|i: int, j: int| 0 <= i < j < s.len() implies le(
        #[trigger] s[i],
        #[trigger] s[j],
    ) by {
        lemma_adjacent_chain(s, i, j);
    }
}

/// Under a total order, where no element of `s` is after its successor, no
/// element is after any later one.
proof fn lemma_adjacent_chain<T: Ord>(s: Seq<T>, i: int, j: int)
    requires
        total_order::<T>(),
        forall|k: int| 0 <= k && k + 1 < s.len() ==> le(#[trigger] s[k], s[k + 1]),
        0 <= i < j < s.len(),
    ensures
        le(s[i], s[j]),
    decreases j - i,
{
    if i + 1 < j {
        lemma_adjacent_chain(s, i, j - 1);
    }
}

/// In an ascending sequence every element is not after its successor.
pub proof fn lemma_sorted_adjacent<T: Ord>(s: Seq<T>)
    requires
        sorted(s),
    ensures
        forall|i: int| 0 <= i && i + 1 < s.len() ==> le(#[trigger] s[i], s[i + 1]),
{
}

/// The tail of an ascending sequence is ascending, and its front element is
/// not after any element of the tail. What is not after any element of a
/// sequence is not after any element of its tail.
pub proof fn lemma_tail_keeps<T: Ord>(x: T, s: Seq<T>)
    requires
        s.len() > 0,
    ensures
        sorted(s) ==> sorted(s.skip(1)) && lower_bound(s[0], s.skip(1)),
        lower_bound(x, s) ==> lower_bound(x, s.skip(1)),
{
}

/// An ascending sequence stays ascending when an element that is not after
/// any of its elements is put in front.
pub proof fn lemma_sorted_with_head<T: Ord>(head: T, tail: Seq<T>)
    requires
        sorted(tail),
        lower_bound(head, tail),
    ensures
        sorted(seq![head] + tail),
{
}

/// Under a total order two ascending sequences that hold the same elements,
/// each as often, are the same sequence.
pub proof fn lemma_sorted_unique<T: Ord>(a: Seq<T>, b: Seq<T>)
    requires
        total_order::<T>(),
        sorted(a),
        sorted(b),
        a.to_multiset() == b.to_multiset(),
    ensures
        a == b,
    decreases a.len(),
{
    broadcast use vstd::multiset::group_multiset_axioms;
    broadcast use group_to_multiset_ensures;

    assert(a.len() == b.len()) by {
        assert(b.to_multiset().len() == b.len());
    }
    if a.len() > 0 {
        // Each front element occurs in the other sequence, where the front
        // element is not after it: the two front elements are the same.
        assert(a.to_multiset().count(a[0]) > 0 && b.to_multiset().count(b[0]) > 0);
        let in_b = choose|k: int| 0 <= k < b.len() && b[k] == a[0];
        let in_a = choose|k: int| 0 <= k < a.len() && a[k] == b[0];
        assert(le(b[0], b[in_b]) && le(a[0], a[in_a]));
        // So the two tails hold the same elements too.
        lemma_tail_keeps(a[0], a);
        lemma_tail_keeps(b[0], b);
        lemma_multiset_commutative(seq![a[0]], a.skip(1));
        lemma_multiset_commutative(seq![b[0]], b.skip(1));
        assert(a =~= seq![a[0]] + a.skip(1));
        assert(b =~= seq![b[0]] + b.skip(1));
        assert(a.skip(1).to_multiset() =~= a.to_multiset().remove(a[0]));
        assert(b.skip(1).to_multiset() =~= b.to_multiset().remove(b[0]));
        lemma_sorted_unique(a.skip(1), b.skip(1));
    }
}

} // verus!
