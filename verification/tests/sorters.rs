use orst::{BubbleSort, InsertionSort, QuickSort, SelectionSort, Sorter};

#[test]
fn bubblesort_works() {
    let mut things: Vec<i64> = vec![4, 2, 5, 3, 1];
    orst::sort::<_, BubbleSort>(&mut things);
    assert_eq!(things, &[1, 2, 3, 4, 5]);
}

#[test]
fn insertionsort_works_smart() {
    let mut things: Vec<i64> = vec![4, 2, 5, 3, 1];
    InsertionSort { smart: true }.sort(&mut things);
    assert_eq!(things, &[1, 2, 3, 4, 5]);
}

#[test]
fn insertionsort_works_dumb() {
    let mut things: Vec<i64> = vec![4, 2, 5, 3, 1];
    InsertionSort { smart: false }.sort(&mut things);
    assert_eq!(things, &[1, 2, 3, 4, 5]);
}

#[test]
fn quicksort_works() {
    let mut things: Vec<i64> = vec![4, 2, 5, 3, 1];
    QuickSort.sort(&mut things);
    assert_eq!(things, &[1, 2, 3, 4, 5]);
}

#[test]
fn quicksort_works_base() {
    let mut things: Vec<i64> = vec![2, 1];
    QuickSort.sort(&mut things);
    assert_eq!(things, &[1, 2]);
}

#[test]
fn selectionsort_works() {
    let mut things: Vec<i64> = vec![4, 2, 5, 3, 1];
    SelectionSort.sort(&mut things);
    assert_eq!(things, &[1, 2, 3, 4, 5]);
}

/// Runs every sorter variant on a copy of `input` and checks each output
/// against the reference result.
fn check_all_sorters(input: &[i64]) {
    let mut expected = input.to_vec();
    expected.sort();

    let mut v = input.to_vec();
    BubbleSort.sort(&mut v);
    assert_eq!(v, expected, "bubble failed on {:?}", input);

    let mut v = input.to_vec();
    SelectionSort.sort(&mut v);
    assert_eq!(v, expected, "selection failed on {:?}", input);

    let mut v = input.to_vec();
    InsertionSort { smart: false }.sort(&mut v);
    assert_eq!(v, expected, "linear insertion failed on {:?}", input);

    let mut v = input.to_vec();
    InsertionSort { smart: true }.sort(&mut v);
    assert_eq!(v, expected, "binary insertion failed on {:?}", input);

    let mut v = input.to_vec();
    QuickSort.sort(&mut v);
    assert_eq!(v, expected, "quick failed on {:?}", input);
}

fn pseudo_random(n: usize, mut state: u64) -> Vec<i64> {
    let mut out = Vec::with_capacity(n);
    for _ in 0..n {
        state = state.wrapping_mul(6364136223846793005).wrapping_add(1442695040888963407);
        out.push((state >> 33) as i64 % 1000);
    }
    out
}

#[test]
fn all_sorters_empty() {
    check_all_sorters(&[]);
}

#[test]
fn all_sorters_singleton() {
    check_all_sorters(&[7]);
}

#[test]
fn all_sorters_pair_both_orders() {
    check_all_sorters(&[1, 2]);
    check_all_sorters(&[2, 1]);
}

#[test]
fn all_sorters_already_sorted() {
    check_all_sorters(&[-3, 0, 0, 4, 9, 12]);
}

#[test]
fn all_sorters_reverse_sorted() {
    check_all_sorters(&[12, 9, 4, 0, 0, -3]);
}

#[test]
fn all_sorters_all_equal() {
    check_all_sorters(&[5, 5, 5, 5, 5]);
}

#[test]
fn all_sorters_pseudo_random() {
    check_all_sorters(&pseudo_random(257, 42));
    check_all_sorters(&pseudo_random(64, 7));
}

#[test]
fn sorting_sorted_input_changes_nothing() {
    let sorted: Vec<i64> = vec![-9, -2, 0, 0, 3, 3, 3, 8, 100];

    let mut v = sorted.clone();
    BubbleSort.sort(&mut v);
    assert_eq!(v, sorted);

    let mut v = sorted.clone();
    SelectionSort.sort(&mut v);
    assert_eq!(v, sorted);

    let mut v = sorted.clone();
    InsertionSort { smart: false }.sort(&mut v);
    assert_eq!(v, sorted);

    let mut v = sorted.clone();
    InsertionSort { smart: true }.sort(&mut v);
    assert_eq!(v, sorted);

    let mut v = sorted.clone();
    QuickSort.sort(&mut v);
    assert_eq!(v, sorted);
}

#[test]
fn output_is_permutation_of_input() {
    // Duplicates included: the multiset of values must survive each sorter.
    let input: Vec<i64> = vec![4, 2, 4, 4, 1, 2, 9, 9, 0];
    let mut expected = input.clone();
    expected.sort();

    let mut v = input.clone();
    BubbleSort.sort(&mut v);
    assert_eq!(v, expected);

    let mut v = input.clone();
    SelectionSort.sort(&mut v);
    assert_eq!(v, expected);

    let mut v = input.clone();
    InsertionSort { smart: false }.sort(&mut v);
    assert_eq!(v, expected);

    let mut v = input.clone();
    InsertionSort { smart: true }.sort(&mut v);
    assert_eq!(v, expected);

    let mut v = input.clone();
    QuickSort.sort(&mut v);
    assert_eq!(v, expected);
}

#[test]
fn quicksort_free_function_sorts() {
    let mut v: Vec<i64> = vec![10, -1, 3, 3, 0];
    orst::quicksort::quicksort(&mut v);
    assert_eq!(v, &[-1, 0, 3, 3, 10]);
}
