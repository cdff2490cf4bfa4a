use rusty_algo::sorting::{SortAlgorithm, Sortable};
use std::cmp::Ordering;

struct TestCase<T> {
    input: Vec<T>,
    expected: Vec<T>,
    description: &'static str,
}

fn test_cases_i32() -> Vec<TestCase<i32>> {
    vec![
        TestCase {
            input: vec![3, 2, 1],
            expected: vec![1, 2, 3],
            description: "Reverse sorted",
        },
        TestCase {
            input: vec![4, 5, 6],
            expected: vec![4, 5, 6],
            description: "Sorted",
        },
        TestCase {
            input: vec![7, 9, 8],
            expected: vec![7, 8, 9],
            description: "Unsorted",
        },
    ]
}

fn test_cases_string() -> Vec<TestCase<String>> {
    vec![
        TestCase {
            input: vec!["c".to_string(), "b".to_string(), "a".to_string()],
            expected: vec!["a".to_string(), "b".to_string(), "c".to_string()],
            description: "Reverse sorted",
        },
        TestCase {
            input: vec!["a".to_string(), "b".to_string(), "c".to_string()],
            expected: vec!["a".to_string(), "b".to_string(), "c".to_string()],
            description: "Sorted",
        },
        TestCase {
            input: vec!["a".to_string(), "c".to_string(), "b".to_string()],
            expected: vec!["a".to_string(), "b".to_string(), "c".to_string()],
            description: "Unsorted",
        },
    ]
}

fn test_algorithm<T, F>(test_cases: Vec<TestCase<T>>, sort_fn: F)
where
    T: Ord + Clone + std::fmt::Debug,
    F: Fn(&mut Vec<T>),
{
    for test_case in test_cases {
        let mut input = test_case.input.clone();
        sort_fn(&mut input);
        assert_eq!(input, test_case.expected, "{}", test_case.description);
    }
}

#[test]
fn test_insertion_sort_i32() {
    test_algorithm(test_cases_i32(), |arr| arr.insertion_sort());
}

#[test]
fn test_insertion_sort_string() {
    test_algorithm(test_cases_string(), |arr| arr.insertion_sort());
}

#[test]
fn test_merge_sort_i32() {
    test_algorithm(test_cases_i32(), |arr| {
        arr.sort_with(&SortAlgorithm::MergeSort)
    });
}

#[test]
fn test_merge_sort_string() {
    test_algorithm(test_cases_string(), |arr| {
        arr.sort_with(&SortAlgorithm::MergeSort)
    });
}

/// A value ranked by `key` alone; `tag` tells apart values that tie.
#[derive(Clone, Debug)]
struct Ranked {
    key: u8,
    tag: char,
}

impl PartialEq for Ranked {
    fn eq(&self, other: &Self) -> bool {
        self.key == other.key
    }
}

impl Eq for Ranked {}

impl PartialOrd for Ranked {
    fn partial_cmp(&self, other: &Self) -> Option<Ordering> {
        Some(self.cmp(other))
    }
}

impl Ord for Ranked {
    fn cmp(&self, other: &Self) -> Ordering {
        self.key.cmp(&other.key)
    }
}

fn ranked(pairs: &[(u8, char)]) -> Vec<Ranked> {
    pairs.iter().map(|&(key, tag)| Ranked { key, tag }).collect()
}

fn tags(values: &[Ranked]) -> String {
    values.iter().map(|r| r.tag).collect()
}

fn scrambled(len: usize) -> Vec<i64> {
    let mut state: u64 = 0x9e37_79b9_7f4a_7c15;
    let mut out = Vec::with_capacity(len);
    for _ in 0..len {
        state = state
            .wrapping_mul(6364136223846793005)
            .wrapping_add(1442695040888963407);
        out.push(((state >> 33) % 41) as i64 - 20);
    }
    out
}

fn is_non_decreasing<T: Ord>(values: &[T]) -> bool {
    values.windows(2).all(|pair| !(pair[1] < pair[0]))
}

fn count_of<T: Eq>(values: &[T], wanted: &T) -> usize {
    values.iter().filter(|v| *v == wanted).count()
}

#[test]
fn both_algorithms_sort_the_empty_slice() {
    let mut empty: Vec<i32> = vec![];
    empty.insertion_sort();
    assert_eq!(empty, Vec::<i32>::new());
    empty.merge_sort();
    assert_eq!(empty, Vec::<i32>::new());
}

#[test]
fn both_algorithms_keep_a_single_element() {
    let mut one = vec![42];
    one.insertion_sort();
    assert_eq!(one, vec![42]);
    one.merge_sort();
    assert_eq!(one, vec![42]);
}

#[test]
fn insertion_sort_gives_a_non_decreasing_permutation() {
    let input = scrambled(97);
    let mut sorted = input.clone();
    sorted.insertion_sort();
    assert_eq!(sorted.len(), input.len());
    assert!(is_non_decreasing(&sorted));
    for value in -20..=20 {
        assert_eq!(count_of(&sorted, &value), count_of(&input, &value));
    }
}

#[test]
fn merge_sort_gives_a_non_decreasing_permutation() {
    let input = scrambled(97);
    let mut sorted = input.clone();
    sorted.merge_sort();
    assert_eq!(sorted.len(), input.len());
    assert!(is_non_decreasing(&sorted));
    for value in -20..=20 {
        assert_eq!(count_of(&sorted, &value), count_of(&input, &value));
    }
}

#[test]
fn sorting_with_duplicates() {
    let mut a = vec![5, 1, 5, 3, 1, 1, 4];
    let mut b = a.clone();
    a.insertion_sort();
    b.merge_sort();
    assert_eq!(a, vec![1, 1, 1, 3, 4, 5, 5]);
    assert_eq!(b, vec![1, 1, 1, 3, 4, 5, 5]);
}

#[test]
fn sorting_a_sorted_sequence_changes_nothing() {
    let sorted = vec![-7, -7, 0, 1, 2, 2, 2, 9, 30];
    let mut a = sorted.clone();
    a.insertion_sort();
    assert_eq!(a, sorted);
    let mut b = sorted.clone();
    b.merge_sort();
    assert_eq!(b, sorted);
}

#[test]
fn sorting_twice_is_sorting_once() {
    let mut once = scrambled(50);
    once.merge_sort();
    let mut twice = once.clone();
    twice.merge_sort();
    assert_eq!(once, twice);
    twice.insertion_sort();
    assert_eq!(once, twice);
}

#[test]
fn insertion_sort_and_merge_sort_agree() {
    for len in 0..40 {
        let input = scrambled(len);
        let mut a = input.clone();
        let mut b = input.clone();
        a.sort_with(&SortAlgorithm::InsertionSort);
        b.sort_with(&SortAlgorithm::MergeSort);
        assert_eq!(a, b, "length {}", len);
    }
}

#[test]
fn the_algorithms_agree_with_the_standard_sort() {
    let input = scrambled(64);
    let mut expected = input.clone();
    expected.sort();
    let mut a = input.clone();
    a.insertion_sort();
    assert_eq!(a, expected);
    let mut b = input;
    b.merge_sort();
    assert_eq!(b, expected);
}

#[test]
fn sort_dispatches_on_the_algorithm() {
    let mut a = vec![2, 3, 1];
    SortAlgorithm::InsertionSort.sort(&mut a);
    assert_eq!(a, vec![1, 2, 3]);
    let mut b = vec![2, 3, 1];
    SortAlgorithm::MergeSort.sort(&mut b);
    assert_eq!(b, vec![1, 2, 3]);
}

#[test]
fn the_algorithms_take_slices() {
    let mut values = [9, 8, 7, 6, 5];
    SortAlgorithm::insertion_sort(&mut values[1..4]);
    assert_eq!(values, [9, 6, 7, 8, 5]);
    SortAlgorithm::merge_sort(&mut values[..]);
    assert_eq!(values, [5, 6, 7, 8, 9]);
}

#[test]
fn insertion_sort_keeps_ties_in_their_order() {
    let mut values = ranked(&[(2, 'a'), (1, 'b'), (2, 'c'), (1, 'd'), (2, 'e')]);
    values.insertion_sort();
    assert_eq!(tags(&values), "bdace");
}

#[test]
fn merge_takes_ties_from_the_right() {
    let mut pair = ranked(&[(1, 'a'), (1, 'b')]);
    pair.merge_sort();
    assert_eq!(tags(&pair), "ba");

    // [a | b c] -> right half becomes "cb", then every tie goes before `a`.
    let mut three = ranked(&[(1, 'a'), (1, 'b'), (1, 'c')]);
    three.merge_sort();
    assert_eq!(tags(&three), "cba");

    let mut mixed = ranked(&[(2, 'a'), (1, 'b'), (2, 'c'), (1, 'd')]);
    mixed.merge_sort();
    assert_eq!(tags(&mixed), "dbca");
}
