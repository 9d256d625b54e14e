use runcount::run_length::{count_runs, sort_vec};
use runcount::sorting::sort_ascending;

#[test]
fn sort_vec_hundred_zeros() {
    let mut values = vec![0u32; 100];
    let counts = sort_vec(&mut values);
    assert_eq!(values, vec![0u32; 100]);
    assert!(counts.is_empty());
}

#[test]
fn three_zeros_give_no_counts() {
    let mut values = vec![0u32, 0, 0];
    let counts = sort_vec(&mut values);
    assert!(counts.is_empty());
    assert_eq!(values, vec![0u32, 0, 0]);
}

#[test]
fn mixed_values_sorted_and_counted() {
    let mut values = vec![5u32, 3, 5, 1];
    let counts = sort_vec(&mut values);
    assert_eq!(values, vec![1u32, 3, 5, 5]);
    assert_eq!(counts, vec![3usize, 3, 6]);
}

#[test]
fn empty_input_gives_empty_output() {
    let mut values: Vec<u32> = Vec::new();
    let counts = sort_vec(&mut values);
    assert!(values.is_empty());
    assert!(counts.is_empty());
}

#[test]
fn single_zero_gives_no_counts() {
    let mut values = vec![0u32];
    assert!(sort_vec(&mut values).is_empty());
}

#[test]
fn single_nonzero_gives_one_count() {
    let mut values = vec![7u32];
    assert_eq!(sort_vec(&mut values), vec![3usize]);
    let mut largest = vec![u32::MAX];
    assert_eq!(sort_vec(&mut largest), vec![3usize]);
}

#[test]
fn sum_is_three_per_element_without_zeros() {
    let mut values = vec![9u32, 2, 2, 7, 9, 9, 1, 2];
    let counts = sort_vec(&mut values);
    assert_eq!(values, vec![1u32, 2, 2, 2, 7, 9, 9, 9]);
    assert_eq!(counts, vec![3usize, 9, 3, 9]);
    assert_eq!(counts.iter().sum::<usize>(), 3 * values.len());
}

#[test]
fn leading_zeros_are_absorbed_by_sentinel() {
    let mut values = vec![4u32, 0, 4, 0, 2];
    let counts = sort_vec(&mut values);
    assert_eq!(values, vec![0u32, 0, 2, 4, 4]);
    assert_eq!(counts, vec![3usize, 6]);
}

#[test]
fn sort_orders_and_keeps_elements() {
    let mut values = vec![u32::MAX, 3, 0, 3, 8, 1];
    sort_ascending(&mut values);
    assert_eq!(values, vec![0u32, 1, 3, 3, 8, u32::MAX]);
    let mut descending: Vec<u32> = (0u32..50).rev().collect();
    sort_ascending(&mut descending);
    assert_eq!(descending, (0u32..50).collect::<Vec<u32>>());
}

#[test]
fn scan_of_unsorted_input_follows_adjacent_values() {
    let values = vec![0u32, 2, 2, 0, 0, 2];
    assert_eq!(count_runs(&values), vec![6usize, 6, 3]);
    let all_equal = vec![6u32, 6, 6, 6];
    assert_eq!(count_runs(&all_equal), vec![12usize]);
}
