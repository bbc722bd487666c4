//! How many tasks a sort starts.
//!
//! A cut whose dispatch is parallel starts one task. The count depends on the
//! length of the input, the depth at which the sort begins and the budget,
//! and on nothing else.

use crate::engine::{dispatch, dispatch_at, Dispatch};
use vstd::arithmetic::power2::{lemma2_to64, lemma_pow2_pos, lemma_pow2_unfold, pow2};
use vstd::prelude::*;

verus! {

/// The number of cuts that a sort of `len` elements makes: every sequence of
/// two or more elements is cut once.
pub open spec fn cuts(len: nat) -> nat
    decreases len,
{
    if len <= 1 {
        0
    } else {
        1 + cuts(len / 2) + cuts((len - len / 2) as nat)
    }
}

/// The number of tasks that a sort of `len` elements starts when it begins at
/// `depth` under `budget`: one at each cut whose dispatch is parallel. Below
/// a parallel cut the depth is one more, below a sequential one it stays.
pub open spec fn spawned_tasks(len: nat, depth: nat, budget: nat) -> nat
    decreases len,
{
    if len <= 1 {
        0
    } else if dispatch_at(depth, budget) == Dispatch::Parallel {
        1 + spawned_tasks(len / 2, depth + 1, budget) + spawned_tasks(
            (len - len / 2) as nat,
            depth + 1,
            budget,
        )
    } else {
        spawned_tasks(len / 2, depth, budget) + spawned_tasks(
            (len - len / 2) as nat,
            depth,
            budget,
        )
    }
}

/// A sort of one element or more makes one cut less than it has elements.
pub proof fn lemma_cuts(len: nat)
    ensures
        cuts(len) == if len == 0 {
            0
        } else {
            len - 1
        },
    decreases len,
{
    if len > 1 {
        lemma_cuts(len / 2);
        lemma_cuts((len - len / 2) as nat);
    }
}

/// No sort starts more tasks than it makes cuts.
pub proof fn lemma_spawned_at_most_cuts(len: nat, depth: nat, budget: nat)
    ensures
        spawned_tasks(len, depth, budget) <= cuts(len),
    decreases len,
{
    if len > 1 {
        let rest = (len - len / 2) as nat;
        if dispatch_at(depth, budget) == Dispatch::Parallel {
            lemma_spawned_at_most_cuts(len / 2, depth + 1, budget);
            lemma_spawned_at_most_cuts(rest, depth + 1, budget);
        } else {
            lemma_spawned_at_most_cuts(len / 2, depth, budget);
            lemma_spawned_at_most_cuts(rest, depth, budget);
        }
    }
}

/// Once the depth has reached the budget no task is started, however long
/// the input is.
pub proof fn lemma_spent_budget_never_spawns(len: nat, depth: nat, budget: nat)
    requires
        depth >= budget,
    ensures
        spawned_tasks(len, depth, budget) == 0,
    decreases len,
{
    if len > 1 {
        lemma_spent_budget_never_spawns(len / 2, depth, budget);
        lemma_spent_budget_never_spawns((len - len / 2) as nat, depth, budget);
    }
}

/// Under a budget of 0 a sort starts no task: it is the sequential merge sort.
pub proof fn lemma_zero_budget_never_spawns(len: nat, depth: nat)
    ensures
        spawned_tasks(len, depth, 0) == 0,
        dispatch_at(depth, 0) == Dispatch::Sequential,
{
    lemma_spent_budget_never_spawns(len, depth, 0);
}

/// Where the levels left under the budget can hold the input, every cut is
/// dispatched in parallel: the sort starts as many tasks as it makes cuts.
pub proof fn lemma_ample_budget_spawns_at_every_cut(len: nat, depth: nat, budget: nat)
    requires
        depth <= budget,
        len <= pow2((budget - depth) as nat),
    ensures
        spawned_tasks(len, depth, budget) == cuts(len),
    decreases len,
{
    if len > 1 {
        let levels = (budget - depth) as nat;
        assert(levels > 0) by {
            lemma2_to64();
        }
        lemma_pow2_unfold(levels);
        lemma_ample_budget_spawns_at_every_cut(len / 2, depth + 1, budget);
        lemma_ample_budget_spawns_at_every_cut((len - len / 2) as nat, depth + 1, budget);
    }
}

/// The tasks of a sort fill at most the levels that the budget leaves: with
/// `k` levels left there are fewer than `2^k` of them, however long the
/// input is.
pub proof fn lemma_spawned_within_budget(len: nat, depth: nat, budget: nat)
    requires
        depth <= budget,
    ensures
        spawned_tasks(len, depth, budget) < pow2((budget - depth) as nat),
    decreases len,
{
    let levels = (budget - depth) as nat;
    lemma_pow2_pos(levels);
    if len > 1 {
        if depth < budget {
            lemma_pow2_unfold(levels);
            lemma_spawned_within_budget(len / 2, depth + 1, budget);
            lemma_spawned_within_budget((len - len / 2) as nat, depth + 1, budget);
        } else {
            lemma_spent_budget_never_spawns(len, depth, budget);
        }
    }
}

/// A budget of at least the binary logarithm of the length, taken from the
/// top, makes every cut of the sort a parallel one.
pub proof fn lemma_log_budget_spawns_at_every_cut(len: nat, budget: nat)
    requires
        len <= pow2(budget),
    ensures
        spawned_tasks(len, 0, budget) == cuts(len),
{
    lemma_ample_budget_spawns_at_every_cut(len, 0, budget);
}

/// Counts the tasks that a sort of `len` elements starts when it begins at
/// `depth` under the budget `max_threads`.
pub fn spawn_count(len: usize, depth: usize, max_threads: usize) -> (count: usize)
    ensures
        count == spawned_tasks(len as nat, depth as nat, max_threads as nat),
    decreases len,
{
    if len <= 1 {
        return 0;
    }
    let half = len / 2;
    let rest = len - half;
    proof {
        lemma_spawned_at_most_cuts(len as nat, depth as nat, max_threads as nat);
        lemma_cuts(len as nat);
    }
    match dispatch(depth, max_threads) {
        Dispatch::Parallel => {
            let first = spawn_count(half, depth + 1, max_threads);
            let second = spawn_count(rest, depth + 1, max_threads);
            1 + first + second
        },
        Dispatch::Sequential => {
            proof {
                lemma_spent_budget_never_spawns(len as nat, depth as nat, max_threads as nat);
            }
            0
        },
    }
}

} // verus!
