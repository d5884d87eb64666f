use sorts::order::is_sorted;

#[test]
fn is_sorted_empty() {
    let input: Vec<i32> = vec![];
    assert!(is_sorted(&input));
}

#[test]
fn is_sorted_singleton() {
    assert!(is_sorted(&[7]));
}

#[test]
fn is_sorted_accepts_duplicates() {
    assert!(is_sorted(&[0, 0, 2, 2, 3, 3, 5, 6, 8, 9]));
}

#[test]
fn is_sorted_rejects_out_of_order() {
    assert!(!is_sorted(&[3, 2, 0, 5, 8, 9, 6, 3, 2, 0]));
    assert!(!is_sorted(&[1, 0]));
}

#[test]
fn is_sorted_negative_values() {
    assert!(is_sorted(&[-9, -3, 0, 2]));
    assert!(!is_sorted(&[0, -1]));
}
