use orst::{BubbleSort, InsertionSort, QuickSort, SelectionSort, SortEvaluator, Sorter};
use std::cell::Cell;
use std::rc::Rc;

fn wrap(values: &[i64], counter: &Rc<Cell<usize>>) -> Vec<SortEvaluator<i64>> {
    values
        .iter()
        .map(|&t| SortEvaluator { t, cmps: Rc::clone(counter) })
        .collect()
}

fn unwrap(values: &[SortEvaluator<i64>]) -> Vec<i64> {
    values.iter().map(|e| e.t).collect()
}

fn pseudo_random(n: usize, mut state: u64) -> Vec<i64> {
    let mut out = Vec::with_capacity(n);
    for _ in 0..n {
        state = state.wrapping_mul(6364136223846793005).wrapping_add(1442695040888963407);
        out.push((state >> 33) as i64 % 100_000);
    }
    out
}

#[test]
fn empty_input_takes_zero_comparisons() {
    let counter = Rc::new(Cell::new(0usize));

    let mut v = wrap(&[], &counter);
    counter.set(0);
    BubbleSort.sort(&mut v);
    assert_eq!(counter.get(), 0);
    assert!(v.is_empty());

    let mut v = wrap(&[], &counter);
    counter.set(0);
    SelectionSort.sort(&mut v);
    assert_eq!(counter.get(), 0);
    assert!(v.is_empty());

    let mut v = wrap(&[], &counter);
    counter.set(0);
    InsertionSort { smart: false }.sort(&mut v);
    assert_eq!(counter.get(), 0);
    assert!(v.is_empty());

    let mut v = wrap(&[], &counter);
    counter.set(0);
    InsertionSort { smart: true }.sort(&mut v);
    assert_eq!(counter.get(), 0);
    assert!(v.is_empty());

    let mut v = wrap(&[], &counter);
    counter.set(0);
    QuickSort.sort(&mut v);
    assert_eq!(counter.get(), 0);
    assert!(v.is_empty());
}

#[test]
fn quicksort_pair_takes_one_comparison() {
    let counter = Rc::new(Cell::new(0usize));
    let mut v = wrap(&[2, 1], &counter);
    counter.set(0);
    QuickSort.sort(&mut v);
    assert_eq!(unwrap(&v), &[1, 2]);
    assert_eq!(counter.get(), 1);
}

#[test]
fn bubble_on_sorted_input_takes_one_pass() {
    // One no-swap pass over n elements is exactly n - 1 comparisons.
    let counter = Rc::new(Cell::new(0usize));
    let mut v = wrap(&[1, 2, 3, 4, 5, 6], &counter);
    counter.set(0);
    BubbleSort.sort(&mut v);
    assert_eq!(unwrap(&v), &[1, 2, 3, 4, 5, 6]);
    assert_eq!(counter.get(), 5);
}

#[test]
fn wrapping_does_not_change_output() {
    let input: Vec<i64> = vec![3, 1, 4, 1, 5, 9, 2, 6, 5, 3, 5];
    let counter = Rc::new(Cell::new(0usize));

    let mut bare = input.clone();
    BubbleSort.sort(&mut bare);
    let mut wrapped = wrap(&input, &counter);
    BubbleSort.sort(&mut wrapped);
    assert_eq!(unwrap(&wrapped), bare);

    let mut bare = input.clone();
    SelectionSort.sort(&mut bare);
    let mut wrapped = wrap(&input, &counter);
    SelectionSort.sort(&mut wrapped);
    assert_eq!(unwrap(&wrapped), bare);

    let mut bare = input.clone();
    InsertionSort { smart: false }.sort(&mut bare);
    let mut wrapped = wrap(&input, &counter);
    InsertionSort { smart: false }.sort(&mut wrapped);
    assert_eq!(unwrap(&wrapped), bare);

    let mut bare = input.clone();
    InsertionSort { smart: true }.sort(&mut bare);
    let mut wrapped = wrap(&input, &counter);
    InsertionSort { smart: true }.sort(&mut wrapped);
    assert_eq!(unwrap(&wrapped), bare);

    let mut bare = input.clone();
    QuickSort.sort(&mut bare);
    let mut wrapped = wrap(&input, &counter);
    QuickSort.sort(&mut wrapped);
    assert_eq!(unwrap(&wrapped), bare);
}

#[test]
fn binary_insertion_spends_far_fewer_comparisons() {
    let input = pseudo_random(1000, 99);
    let counter = Rc::new(Cell::new(0usize));

    let mut v = wrap(&input, &counter);
    counter.set(0);
    InsertionSort { smart: false }.sort(&mut v);
    let linear_count = counter.get();

    let mut v = wrap(&input, &counter);
    counter.set(0);
    InsertionSort { smart: true }.sort(&mut v);
    let binary_count = counter.get();

    assert!(
        binary_count * 4 < linear_count,
        "binary {} vs linear {}",
        binary_count,
        linear_count
    );
}

#[test]
fn scenario_all_variants_sort_and_count() {
    // Every variant on the same five elements: same output, and each tallies
    // at least the four comparisons that n = 5 forces on any sort.
    let input: Vec<i64> = vec![4, 2, 5, 3, 1];
    let counter = Rc::new(Cell::new(0usize));

    for which in 0..5 {
        let mut v = wrap(&input, &counter);
        counter.set(0);
        match which {
            0 => BubbleSort.sort(&mut v),
            1 => SelectionSort.sort(&mut v),
            2 => InsertionSort { smart: false }.sort(&mut v),
            3 => InsertionSort { smart: true }.sort(&mut v),
            _ => QuickSort.sort(&mut v),
        }
        assert_eq!(unwrap(&v), &[1, 2, 3, 4, 5]);
        assert!(counter.get() >= 4);
    }
}
