use sorts::quick::quicksort;

#[test]
fn main_empty() {
    let mut input: Vec<i32> = vec![];
    quicksort(&mut input);
    let expected: Vec<i32> = vec![];

    assert_eq!(expected, input);
}

#[test]
fn main_ten_items() {
    let mut input = vec![3, 2, 0, 5, 8, 9, 6, 3, 2, 0];
    quicksort(&mut input);
    let expected = vec![0, 0, 2, 2, 3, 3, 5, 6, 8, 9];

    assert_eq!(expected, input);
}

#[test]
fn main_presorted() {
    let mut input = vec![0, 0, 2, 2, 3, 3, 5, 6, 8, 9];
    quicksort(&mut input);
    let expected = vec![0, 0, 2, 2, 3, 3, 5, 6, 8, 9];

    assert_eq!(expected, input);
}

#[test]
fn quicksort_singleton() {
    let mut input = vec![7];
    quicksort(&mut input);
    assert_eq!(vec![7], input);
}

#[test]
fn quicksort_reverse_order() {
    let mut input = vec![9, 8, 6, 5, 3, 3, 2, 2, 0, 0];
    quicksort(&mut input);
    assert_eq!(vec![0, 0, 2, 2, 3, 3, 5, 6, 8, 9], input);
}

#[test]
fn quicksort_all_equal() {
    let mut input = vec![4, 4, 4, 4];
    quicksort(&mut input);
    assert_eq!(vec![4, 4, 4, 4], input);
}

#[test]
fn quicksort_two_items() {
    let mut input = vec![2, 1];
    quicksort(&mut input);
    assert_eq!(vec![1, 2], input);
}
