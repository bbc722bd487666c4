//! A depth-bounded merge sort, verified with Verus.
//!
//! `merge` joins two sorted vectors into one. `engine` cuts a vector in two,
//! sorts both halves and merges them, and decides at each cut, from its depth
//! and a budget, whether the halves may run in parallel. `fanout` counts the
//! tasks that this starts. `order` says what it means for the elements to be
//! totally ordered and for a sequence to be ascending. `bench` and `count`
//! hold what a timing harness needs around the sort.
//!
//! No function of this crate starts a thread. A driver that does so goes by
//! `engine::step`: it starts a task where the step is a fork, and merges
//! what the two halves give with `merge::merge`. Its result is the one that
//! `engine::parallel_merge_sort` gives on the caller's thread alone.

pub mod bench;
pub mod count;
pub mod engine;
pub mod fanout;
pub mod merge;
pub mod order;

pub use bench::generate_random_array;
pub use engine::{parallel_merge_sort, parallel_merge_sort_helper};
pub use merge::merge;
