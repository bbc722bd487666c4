//! The depth-bounded merge sort.
//!
//! A sequence of two or more elements is cut in two at its middle, both
//! halves are sorted, and the sorted halves are merged. How the two halves
//! are run is decided at each cut by `dispatch`, from the depth of the cut
//! and the budget of the whole sort. Starting a task for a half is left to
//! the caller's driver: what this module computes does not depend on it.

use crate::merge::{lemma_merged_permutes, lemma_merged_sorted, merge, merged};
use crate::order::{lemma_sorted_unique, sorted, total_order};
use vstd::prelude::*;
use vstd::seq_lib::*;

verus! {

/// How the two halves of a cut are run.
#[derive(Clone, Copy, Debug, PartialEq, Eq, Structural)]
pub enum Dispatch {
    /// One half on a task of its own, the other by the caller, both one level
    /// deeper.
    Parallel,
    /// One half after the other by the caller, at the depth of the cut.
    Sequential,
}

/// The dispatch at a cut of depth `depth` under the budget `max_threads`.
pub open spec fn dispatch_at(depth: nat, max_threads: nat) -> Dispatch {
    if depth < max_threads {
        Dispatch::Parallel
    } else {
        Dispatch::Sequential
    }
}

/// Decides how the halves of a cut at `depth` are run: in parallel while
/// the depth is below the budget, one after the other from there on.
pub fn dispatch(depth: usize, max_threads: usize) -> (decision: Dispatch)
    ensures
        decision == dispatch_at(depth as nat, max_threads as nat),
{
    if depth < max_threads {
        Dispatch::Parallel
    } else {
        Dispatch::Sequential
    }
}

/// The sequence that sorting `s` gives: `s` itself where it has at most one
/// element, else the merge of its two sorted halves.
pub open spec fn sort_of<T: Ord>(s: Seq<T>) -> Seq<T>
    decreases s.len(),
{
    if s.len() <= 1 {
        s
    } else {
        let middle = s.len() as int / 2;
        merged(sort_of(s.take(middle)), sort_of(s.skip(middle)))
    }
}

/// Cuts `arr` at its middle: the first half gets `len / 2` elements, the
/// second the rest, each in the order it had.
pub fn split<T>(arr: Vec<T>) -> (halves: (Vec<T>, Vec<T>))
    ensures
        halves.0@ == arr@.take(arr@.len() as int / 2),
        halves.1@ == arr@.skip(arr@.len() as int / 2),
{
    let mut left = arr;
    let middle = left.len() / 2;
    let right = left.split_off(middle);
    (left, right)
}

/// Sorts `arr`. The result holds the elements of `arr`. Where `T` is totally
/// ordered it is `sort_of(arr)`, in ascending order, whatever `depth` and
/// `max_threads` are: they decide the dispatch at each cut and nothing of the
/// result.
pub fn parallel_merge_sort<T: Ord>(arr: Vec<T>, depth: usize, max_threads: usize) -> (result: Vec<T>)
    ensures
        result@.len() == arr@.len(),
        result@.to_multiset() == arr@.to_multiset(),
        total_order::<T>() ==> result@ == sort_of(arr@),
        total_order::<T>() ==> sorted(result@),
    decreases arr@.len(),
{
    let length = arr.len();
    if length <= 1 {
        return arr;
    }
    let ghost whole = arr@;
    let ghost middle = whole.len() as int / 2;
    let (left, right) = split(arr);
    let (left, right) = match dispatch(depth, max_threads) {
        Dispatch::Parallel => {
            let right = parallel_merge_sort(right, depth + 1, max_threads);
            let left = parallel_merge_sort(left, depth + 1, max_threads);
            (left, right)
        },
        Dispatch::Sequential => {
            let left = parallel_merge_sort(left, depth, max_threads);
            let right = parallel_merge_sort(right, depth, max_threads);
            (left, right)
        },
    };
    proof {
        lemma_multiset_commutative(whole.take(middle), whole.skip(middle));
        assert(whole =~= whole.take(middle) + whole.skip(middle));
    }
    merge(left, right)
}

/// What is left to do after one step of a sort.
#[derive(Debug)]
pub enum Step<T> {
    /// Nothing: this is the sorted input.
    Sorted(Vec<T>),
    /// The input was cut at its middle and its dispatch is parallel: the two
    /// halves are to be sorted from `depth`, each by a task of its own, and
    /// what comes back, the sorted `left` and the sorted `right`, is to be
    /// merged in that order.
    Fork { left: Vec<T>, right: Vec<T>, depth: usize },
}

/// Does one step of the sort of `arr` for a driver that runs tasks. An input
/// of at most one element, and one whose dispatch is sequential, is sorted
/// here and now by the caller. An input of two or more elements whose
/// dispatch is parallel is cut, and the halves are handed back to be sorted
/// one level deeper.
pub fn step<T: Ord>(arr: Vec<T>, depth: usize, max_threads: usize) -> (next: Step<T>)
    ensures
        match next {
            Step::Sorted(result) => {
                &&& arr@.len() <= 1 || dispatch_at(depth as nat, max_threads as nat)
                    == Dispatch::Sequential
                &&& result@.len() == arr@.len()
                &&& result@.to_multiset() == arr@.to_multiset()
                &&& total_order::<T>() ==> result@ == sort_of(arr@) && sorted(result@)
            },
            Step::Fork { left, right, depth: below } => {
                &&& arr@.len() > 1
                &&& dispatch_at(depth as nat, max_threads as nat) == Dispatch::Parallel
                &&& left@ == arr@.take(arr@.len() as int / 2)
                &&& right@ == arr@.skip(arr@.len() as int / 2)
                &&& below == depth + 1
            },
        },
{
    if arr.len() <= 1 {
        return Step::Sorted(arr);
    }
    match dispatch(depth, max_threads) {
        Dispatch::Sequential => Step::Sorted(parallel_merge_sort(arr, depth, max_threads)),
        Dispatch::Parallel => {
            let (left, right) = split(arr);
            Step::Fork { left, right, depth: depth + 1 }
        },
    }
}

/// Sorts `arr` from the top: the sort at depth 0 under the budget
/// `max_threads`.
pub fn parallel_merge_sort_helper<T: Ord>(arr: Vec<T>, max_threads: usize) -> (result: Vec<T>)
    ensures
        result@.len() == arr@.len(),
        result@.to_multiset() == arr@.to_multiset(),
        total_order::<T>() ==> result@ == sort_of(arr@),
        total_order::<T>() ==> sorted(result@),
{
    parallel_merge_sort(arr, 0, max_threads)
}

/// Sorting neither adds nor drops an element: `sort_of(s)` holds what `s`
/// holds, each element as often, and so has the length of `s`.
pub proof fn lemma_sort_permutes<T: Ord>(s: Seq<T>)
    ensures
        sort_of(s).len() == s.len(),
        sort_of(s).to_multiset() == s.to_multiset(),
    decreases s.len(),
{
    if s.len() > 1 {
        let middle = s.len() as int / 2;
        lemma_sort_permutes(s.take(middle));
        lemma_sort_permutes(s.skip(middle));
        lemma_merged_permutes(sort_of(s.take(middle)), sort_of(s.skip(middle)));
        lemma_multiset_commutative(s.take(middle), s.skip(middle));
        assert(s =~= s.take(middle) + s.skip(middle));
    }
}

/// Under a total order `sort_of(s)` is ascending.
pub proof fn lemma_sort_sorted<T: Ord>(s: Seq<T>)
    requires
        total_order::<T>(),
    ensures
        sorted(sort_of(s)),
    decreases s.len(),
{
    if s.len() > 1 {
        let middle = s.len() as int / 2;
        lemma_sort_sorted(s.take(middle));
        lemma_sort_sorted(s.skip(middle));
        lemma_merged_sorted(sort_of(s.take(middle)), sort_of(s.skip(middle)));
    }
}

/// Merging the sorted halves of a fork gives the sorted whole: a sequence of
/// two or more elements is sorted by sorting the halves it is cut into and
/// merging them, whoever sorts the halves.
pub proof fn lemma_fork_joins<T: Ord>(s: Seq<T>)
    requires
        s.len() > 1,
    ensures
        merged(sort_of(s.take(s.len() as int / 2)), sort_of(s.skip(s.len() as int / 2)))
            == sort_of(s),
{
}

/// Under a total order `sort_of(s)` is the one ascending sequence that holds
/// what `s` holds.
pub proof fn lemma_sort_is_the_sorted_permutation<T: Ord>(s: Seq<T>, t: Seq<T>)
    requires
        total_order::<T>(),
        sorted(t),
        t.to_multiset() == s.to_multiset(),
    ensures
        t == sort_of(s),
{
    lemma_sort_permutes(s);
    lemma_sort_sorted(s);
    lemma_sorted_unique(t, sort_of(s));
}

/// Under a total order sorting leaves an ascending sequence as it is.
pub proof fn lemma_sort_keeps_sorted<T: Ord>(s: Seq<T>)
    requires
        total_order::<T>(),
        sorted(s),
    ensures
        sort_of(s) == s,
{
    lemma_sort_is_the_sorted_permutation(s, s);
}

/// Under a total order sorting twice gives what sorting once gives.
pub proof fn lemma_sort_idempotent<T: Ord>(s: Seq<T>)
    requires
        total_order::<T>(),
    ensures
        sort_of(sort_of(s)) == sort_of(s),
{
    lemma_sort_sorted(s);
    lemma_sort_keeps_sorted(sort_of(s));
}

} // verus!
