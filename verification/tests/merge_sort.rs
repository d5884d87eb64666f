use sorts::merge::merge;
use sorts::merge::merge_sort;

#[test]
fn merge_sort_empty() {
    let input: [i32; 0] = [];
    let result = merge_sort(&input);
    let expected: Vec<i32> = Vec::new();

    assert_eq!(expected, result);
}

#[test]
fn merge_sort_ten_items() {
    let input = [3, 2, 0, 5, 8, 9, 6, 3, 2, 0];
    let result = merge_sort(&input);
    let expected = [0, 0, 2, 2, 3, 3, 5, 6, 8, 9].to_vec();

    assert_eq!(expected, result);
}

#[test]
fn merge_sort_presorted() {
    let input = [0, 0, 2, 2, 3, 3, 5, 6, 8, 9];
    let result = merge_sort(&input);
    let expected = [0, 0, 2, 2, 3, 3, 5, 6, 8, 9].to_vec();

    assert_eq!(expected, result);
}

#[test]
fn merge_sort_singleton() {
    let input = [7];
    let result = merge_sort(&input);
    assert_eq!(vec![7], result);
}

#[test]
fn merge_sort_leaves_input_untouched() {
    let input = vec![3, 1, 2];
    let result = merge_sort(&input);
    assert_eq!(vec![3, 1, 2], input);
    assert_eq!(vec![1, 2, 3], result);
}

#[test]
fn merge_two_sorted_vectors() {
    let result = merge(vec![5, 8, 9], vec![0, 2, 3, 6]);
    assert_eq!(vec![0, 2, 3, 5, 6, 8, 9], result);
}

#[test]
fn merge_with_empty_side() {
    assert_eq!(vec![1, 2], merge(vec![1, 2], vec![]));
    assert_eq!(vec![1, 2], merge(vec![], vec![1, 2]));
    let none: Vec<i32> = vec![];
    let merged: Vec<i32> = merge(vec![], vec![]);
    assert_eq!(none, merged);
}
