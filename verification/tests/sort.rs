use tinystd::sort::{quicksort, Bubble, Insertion, Quick, Selection, Sorter};

/// A sorter that hands the work to the standard library.
struct StdSorter;

impl Sorter for StdSorter {
    fn sort<T>(&self, slice: &mut [T])
    where
        T: Ord,
    {
        slice.sort();
    }
}

#[test]
fn std_sorter() {
    let mut items = vec![4, 2, 3, 1];
    StdSorter.sort(&mut items);
    assert_eq!(items, &[1, 2, 3, 4]);
}

#[test]
fn bubble_it_works() {
    let mut items = vec![4, 2, 3, 1];
    Bubble.sort(&mut items);
    assert_eq!(items, &[1, 2, 3, 4]);
}

#[test]
fn smart_works() {
    let mut items = vec![4, 2, 3, 1];
    Insertion { smart: true }.sort(&mut items);
    assert_eq!(items, &[1, 2, 3, 4]);
}

#[test]
fn not_smart_works() {
    let mut items = vec![4, 2, 3, 1];
    Insertion { smart: false }.sort(&mut items);
    assert_eq!(items, &[1, 2, 3, 4]);
}

#[test]
fn quick_it_works() {
    let mut items = vec![4, 2, 3, 1];
    Quick.sort(&mut items);
    assert_eq!(items, &[1, 2, 3, 4]);
}

#[test]
fn selection_it_works() {
    let mut items = vec![4, 2, 3, 1];
    Selection.sort(&mut items);
    assert_eq!(items, &[1, 2, 3, 4]);
}

#[test]
fn quicksort_sorts_in_place() {
    let mut items = vec![5, 1, 4, 1, 5, 9, 2, 6];
    quicksort(&mut items);
    assert_eq!(items, &[1, 1, 2, 4, 5, 5, 6, 9]);
}

fn sorters() -> Vec<(&'static str, Box<dyn Fn(&mut [i32])>)> {
    vec![
        ("bubble", Box::new(|s: &mut [i32]| Bubble.sort(s))),
        ("insertion", Box::new(|s: &mut [i32]| Insertion { smart: false }.sort(s))),
        ("smart insertion", Box::new(|s: &mut [i32]| Insertion { smart: true }.sort(s))),
        ("selection", Box::new(|s: &mut [i32]| Selection.sort(s))),
        ("quick", Box::new(|s: &mut [i32]| Quick.sort(s))),
    ]
}

fn check_all(input: &[i32], expected: &[i32]) {
    for (name, sort) in sorters() {
        let mut items = input.to_vec();
        sort(&mut items);
        assert_eq!(items, expected, "{}", format!("{} on {:?}", name, input));
    }
}

#[test]
fn nothing_to_sort() {
    check_all(&[], &[]);
    check_all(&[7], &[7]);
}

#[test]
fn two_elements() {
    check_all(&[1, 2], &[1, 2]);
    check_all(&[2, 1], &[1, 2]);
    check_all(&[3, 3], &[3, 3]);
}

#[test]
fn sorted_and_reversed_input() {
    check_all(&[1, 2, 3, 4, 5], &[1, 2, 3, 4, 5]);
    check_all(&[5, 4, 3, 2, 1], &[1, 2, 3, 4, 5]);
}

#[test]
fn ties_and_negative_numbers() {
    check_all(&[3, -1, 3, 0, -1, 3, 2], &[-1, -1, 0, 2, 3, 3, 3]);
    check_all(&[0, 0, 0, 0], &[0, 0, 0, 0]);
    check_all(&[i32::MAX, i32::MIN, 0], &[i32::MIN, 0, i32::MAX]);
}

#[test]
fn a_longer_input() {
    // a fixed scramble of 0..200
    let input: Vec<i32> = (0..200).map(|i| (i * 73 + 11) % 200).collect();
    let expected: Vec<i32> = (0..200).collect();
    check_all(&input, &expected);
}

#[test]
fn values_that_are_not_copied() {
    let words = ["pear", "apple", "fig", "apple", "kiwi"];
    let expected = ["apple", "apple", "fig", "kiwi", "pear"];
    let mut items: Vec<String> = words.iter().map(|w| w.to_string()).collect();
    Quick.sort(&mut items);
    assert_eq!(items, expected);
    let mut items: Vec<String> = words.iter().map(|w| w.to_string()).collect();
    Insertion { smart: true }.sort(&mut items);
    assert_eq!(items, expected);
    let mut items: Vec<String> = words.iter().map(|w| w.to_string()).collect();
    Bubble.sort(&mut items);
    assert_eq!(items, expected);
    let mut items: Vec<String> = words.iter().map(|w| w.to_string()).collect();
    Selection.sort(&mut items);
    assert_eq!(items, expected);
}
