use parsort::bench::{ensure_sorted, generate_random_array};
use parsort::engine::{dispatch, parallel_merge_sort, parallel_merge_sort_helper, split, Dispatch};

#[test]
fn sorts_six_elements_under_budget_two() {
    for _ in 0..50 {
        let sorted = parallel_merge_sort(vec![5, 3, 8, 1, 9, 2], 0, 2);
        assert_eq!(sorted, vec![1, 2, 3, 5, 8, 9]);
    }
}

#[test]
fn sorts_the_same_under_every_budget() {
    for budget in 0..6 {
        assert_eq!(parallel_merge_sort_helper(vec![5, 3, 8, 1, 9, 2], budget), vec![1, 2, 3, 5, 8, 9]);
    }
}

#[test]
fn sorts_the_same_from_every_depth() {
    for depth in 0..6 {
        assert_eq!(parallel_merge_sort(vec![4, 4, 1, 0, 7], depth, 3), vec![0, 1, 4, 4, 7]);
    }
    assert_eq!(
        parallel_merge_sort(vec![2, 1], usize::MAX, usize::MAX),
        vec![1, 2]
    );
    assert_eq!(
        parallel_merge_sort(vec![3, 2, 1], usize::MAX - 1, usize::MAX),
        vec![1, 2, 3]
    );
}

#[test]
fn empty_input_comes_back_empty() {
    let sorted: Vec<u8> = parallel_merge_sort_helper(Vec::new(), 4);
    assert!(sorted.is_empty());
}

#[test]
fn single_element_comes_back_unchanged() {
    assert_eq!(parallel_merge_sort_helper(vec![42u64], 4), vec![42]);
}

#[test]
fn output_is_ascending() {
    let input: Vec<usize> = vec![9, 7, 5, 3, 1, 8, 6, 4, 2, 0, 5, 5];
    let sorted = parallel_merge_sort_helper(input, 3);
    assert!(sorted.windows(2).all(|pair| pair[0] <= pair[1]));
    assert!(ensure_sorted(&sorted));
}

#[test]
fn output_holds_the_input_elements() {
    let input: Vec<i32> = vec![3, -1, 3, 0, -1, 3, 7];
    let sorted = parallel_merge_sort_helper(input.clone(), 2);
    assert_eq!(sorted.len(), input.len());
    for x in [-1, 0, 3, 7, 5] {
        let before = input.iter().filter(|&&y| y == x).count();
        let after = sorted.iter().filter(|&&y| y == x).count();
        assert_eq!(before, after);
    }
    assert_eq!(sorted, vec![-1, -1, 0, 3, 3, 3, 7]);
}

#[test]
fn sorting_twice_changes_nothing() {
    let once = parallel_merge_sort_helper(vec![8u16, 2, 9, 2, 1, 0, 33], 2);
    let twice = parallel_merge_sort_helper(once.clone(), 2);
    assert_eq!(once, twice);
    assert_eq!(twice, vec![0, 1, 2, 2, 8, 9, 33]);
}

#[test]
fn sorted_and_reversed_inputs() {
    let ascending: Vec<u32> = (0..100).collect();
    let descending: Vec<u32> = (0..100).rev().collect();
    assert_eq!(parallel_merge_sort_helper(ascending.clone(), 3), ascending);
    assert_eq!(parallel_merge_sort_helper(descending, 3), ascending);
}

#[test]
fn ten_thousand_random_values_match_the_standard_sort() {
    let input = generate_random_array(10_000);
    assert_eq!(input.len(), 10_000);
    let mut expected = input.clone();
    expected.sort();
    for budget in [0, 1, 2, 4, 8, 16, 64, usize::MAX] {
        let sorted = parallel_merge_sort_helper(input.clone(), budget);
        assert_eq!(sorted, expected);
        assert!(ensure_sorted(&sorted));
    }
}

#[test]
fn split_cuts_at_the_middle() {
    assert_eq!(split(vec![1, 2, 3, 4, 5]), (vec![1, 2], vec![3, 4, 5]));
    assert_eq!(split(vec![1, 2, 3, 4]), (vec![1, 2], vec![3, 4]));
    assert_eq!(split(vec![7]), (vec![], vec![7]));
    assert_eq!(split(Vec::<u8>::new()), (vec![], vec![]));
}

#[test]
fn dispatch_is_parallel_below_the_budget() {
    assert_eq!(dispatch(0, 2), Dispatch::Parallel);
    assert_eq!(dispatch(1, 2), Dispatch::Parallel);
    assert_eq!(dispatch(2, 2), Dispatch::Sequential);
    assert_eq!(dispatch(3, 2), Dispatch::Sequential);
    assert_eq!(dispatch(0, 0), Dispatch::Sequential);
}
