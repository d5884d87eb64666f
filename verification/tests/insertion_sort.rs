use sorts::insertion::insertion_sort;

#[test]
fn empty() {
    let mut input: Vec<i32> = vec![];
    insertion_sort(&mut input);
    let expected: Vec<i32> = vec![];

    assert_eq!(expected, input);
}

#[test]
fn ten_items() {
    let mut input = vec![3, 2, 0, 5, 8, 9, 6, 3, 2, 0];
    insertion_sort(&mut input);
    let expected = vec![0, 0, 2, 2, 3, 3, 5, 6, 8, 9];

    assert_eq!(expected, input);
}

#[test]
fn presorted() {
    let mut input = vec![0, 0, 2, 2, 3, 3, 5, 6, 8, 9];
    insertion_sort(&mut input);
    let expected = vec![0, 0, 2, 2, 3, 3, 5, 6, 8, 9];

    assert_eq!(expected, input);
}

#[test]
fn insertion_sort_singleton() {
    let mut input = vec![7];
    insertion_sort(&mut input);
    assert_eq!(vec![7], input);
}

#[test]
fn insertion_sort_reverse_order() {
    let mut input = vec![9, 8, 6, 5, 3, 3, 2, 2, 0, 0];
    insertion_sort(&mut input);
    assert_eq!(vec![0, 0, 2, 2, 3, 3, 5, 6, 8, 9], input);
}

#[test]
fn insertion_sort_negative_values() {
    let mut input = vec![3, -1, 0, -7];
    insertion_sort(&mut input);
    assert_eq!(vec![-7, -1, 0, 3], input);
}
