//! Merging two sorted sequences into one.

use crate::order::{
    le, lemma_sorted_with_head, lemma_tail_keeps, lower_bound, sorted, total_order,
};
use vstd::prelude::*;
use vstd::seq_lib::*;

verus! {

/// The merge of `left` and `right`: at each step the smaller of the two front
/// elements comes next, the front of `left` when neither is smaller; once one
/// side is used up, the rest of the other follows in order.
pub open spec fn merged<T: Ord>(left: Seq<T>, right: Seq<T>) -> Seq<T>
    decreases left.len() + right.len(),
{
    if left.len() == 0 {
        right
    } else if right.len() == 0 {
        left
    } else if le(left[0], right[0]) {
        seq![left[0]] + merged(left.skip(1), right)
    } else {
        seq![right[0]] + merged(left, right.skip(1))
    }
}

/// A merge holds exactly the elements of its two inputs, each as often as
/// the inputs hold it.
pub proof fn lemma_merged_permutes<T: Ord>(left: Seq<T>, right: Seq<T>)
    ensures
        merged(left, right).len() == left.len() + right.len(),
        merged(left, right).to_multiset() == left.to_multiset().add(right.to_multiset()),
    decreases left.len() + right.len(),
{
    broadcast use vstd::multiset::group_multiset_axioms;
    broadcast use group_to_multiset_ensures;

    if left.len() == 0 || right.len() == 0 {
    } else if le(left[0], right[0]) {
        lemma_merged_permutes(left.skip(1), right);
        lemma_multiset_commutative(seq![left[0]], merged(left.skip(1), right));
        lemma_multiset_commutative(seq![left[0]], left.skip(1));
        assert(left =~= seq![left[0]] + left.skip(1));
    } else {
        lemma_merged_permutes(left, right.skip(1));
        lemma_multiset_commutative(seq![right[0]], merged(left, right.skip(1)));
        lemma_multiset_commutative(seq![right[0]], right.skip(1));
        assert(right =~= seq![right[0]] + right.skip(1));
    }
}

/// What is not after any element of either input is not after any element of
/// their merge.
pub proof fn lemma_merged_lower_bound<T: Ord>(x: T, left: Seq<T>, right: Seq<T>)
    requires
        lower_bound(x, left),
        lower_bound(x, right),
    ensures
        lower_bound(x, merged(left, right)),
    decreases left.len() + right.len(),
{
    if left.len() == 0 || right.len() == 0 {
    } else if le(left[0], right[0]) {
        lemma_tail_keeps(x, left);
        lemma_merged_lower_bound(x, left.skip(1), right);
    } else {
        lemma_tail_keeps(x, right);
        lemma_merged_lower_bound(x, left, right.skip(1));
    }
}

/// The merge of two ascending sequences is ascending.
pub proof fn lemma_merged_sorted<T: Ord>(left: Seq<T>, right: Seq<T>)
    requires
        total_order::<T>(),
        sorted(left),
        sorted(right),
    ensures
        sorted(merged(left, right)),
    decreases left.len() + right.len(),
{
    if left.len() == 0 || right.len() == 0 {
    } else if le(left[0], right[0]) {
        // The front of `left` is not after the rest of `left`, nor after the
        // front of `right` and so after none of `right`.
        lemma_tail_keeps(left[0], left);
        lemma_merged_sorted(left.skip(1), right);
        lemma_merged_lower_bound(left[0], left.skip(1), right);
        lemma_sorted_with_head(left[0], merged(left.skip(1), right));
    } else {
        lemma_tail_keeps(right[0], right);
        lemma_merged_sorted(left, right.skip(1));
        lemma_merged_lower_bound(right[0], left, right.skip(1));
        lemma_sorted_with_head(right[0], merged(left, right.skip(1)));
    }
}

/// Moves the last element of `from` to the end of `onto`.
fn move_last<T>(from: &mut Vec<T>, onto: &mut Vec<T>)
    requires
        old(from)@.len() > 0,
    ensures
        final(from)@ == old(from)@.drop_last(),
        final(onto)@ == old(onto)@.push(old(from)@.last()),
        old(from)@.to_multiset() == final(from)@.to_multiset().insert(old(from)@.last()),
        final(onto)@.to_multiset() == old(onto)@.to_multiset().insert(old(from)@.last()),
{
    broadcast use group_to_multiset_ensures;

    let ghost source = from@;
    if let Some(x) = from.pop() {
        onto.push(x);
        assert(source =~= from@.push(x));
    }
}

/// Moves the elements of `from`, last one first, onto the end of `onto`.
fn pour_reversed<T>(from: Vec<T>, onto: &mut Vec<T>)
    ensures
        final(onto)@ == old(onto)@ + from@.reverse(),
        final(onto)@.to_multiset() == old(onto)@.to_multiset().add(from@.to_multiset()),
{
    broadcast use vstd::multiset::group_multiset_axioms;
    broadcast use group_to_multiset_ensures;

    let mut from = from;
    let ghost source = from@;
    let ghost target = onto@;
    while from.len() > 0
        invariant
            from@.len() <= source.len(),
            from@ == source.take(from@.len() as int),
            onto@ == target + source.skip(from@.len() as int).reverse(),
            onto@.to_multiset().add(from@.to_multiset()) == target.to_multiset().add(
                source.to_multiset(),
            ),
        decreases from@.len(),
    {
        move_last(&mut from, onto);
    }
}

/// Merges two vectors into one. The result holds the elements of both. Where
/// `T` is totally ordered the result is `merged` of the two, so that two
/// ascending inputs give an ascending result, with equal elements of `left`
/// before those of `right`. An empty input gives back the other one as it is.
pub fn merge<T: Ord>(left: Vec<T>, right: Vec<T>) -> (result: Vec<T>)
    ensures
        result@.len() == left@.len() + right@.len(),
        result@.to_multiset() == left@.to_multiset().add(right@.to_multiset()),
        left@.len() == 0 ==> result@ == right@,
        right@.len() == 0 ==> result@ == left@,
        total_order::<T>() ==> result@ == merged(left@, right@),
        total_order::<T>() && sorted(left@) && sorted(right@) ==> sorted(result@),
{
    broadcast use vstd::multiset::group_multiset_axioms;
    broadcast use group_to_multiset_ensures;

    let ghost l = left@;
    let ghost r = right@;
    proof {
        if total_order::<T>() && sorted(l) && sorted(r) {
            lemma_merged_sorted(l, r);
        }
    }
    if left.len() == 0 {
        return right;
    }
    if right.len() == 0 {
        return left;
    }
    // Both inputs are turned round, so that the front element of each is the
    // one that `pop` gives.
    let mut left_back: Vec<T> = Vec::new();
    pour_reversed(left, &mut left_back);
    let mut right_back: Vec<T> = Vec::new();
    pour_reversed(right, &mut right_back);
    let mut result: Vec<T> = Vec::new();
    assert(l.skip(0) =~= l && r.skip(0) =~= r);
    while left_back.len() > 0 && right_back.len() > 0
        invariant
            left_back@.len() <= l.len(),
            right_back@.len() <= r.len(),
            left_back@ == l.reverse().take(left_back@.len() as int),
            right_back@ == r.reverse().take(right_back@.len() as int),
            result@.len() == (l.len() - left_back@.len()) + (r.len() - right_back@.len()),
            result@.to_multiset().add(left_back@.to_multiset()).add(right_back@.to_multiset())
                == l.to_multiset().add(r.to_multiset()),
            total_order::<T>() ==> result@ + merged(
                l.skip(l.len() - left_back@.len()),
                r.skip(r.len() - right_back@.len()),
            ) == merged(l, r),
        decreases left_back@.len() + right_back@.len(),
    {
        let ghost i = l.len() - left_back@.len();
        let ghost j = r.len() - right_back@.len();
        if right_back[right_back.len() - 1] < left_back[left_back.len() - 1] {
            move_last(&mut right_back, &mut result);
            assert(r.skip(j).skip(1) =~= r.skip(j + 1));
        } else {
            move_last(&mut left_back, &mut result);
            assert(l.skip(i).skip(1) =~= l.skip(i + 1));
        }
    }
    // One side is used up: what is left of the other follows in order.
    let ghost done = result@;
    let ghost left_rest = l.skip(l.len() - left_back@.len());
    let ghost right_rest = r.skip(r.len() - right_back@.len());
    pour_reversed(left_back, &mut result);
    pour_reversed(right_back, &mut result);
    assert(result@ =~= done + (left_rest + right_rest));
    result
}

} // verus!
