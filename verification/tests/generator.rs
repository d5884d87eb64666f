use sorts::order::is_sorted;
use sorts::random::generate_random_array;

#[test]
fn generator_length_and_bounds() {
    let v = generate_random_array(100, 3, 7);
    assert_eq!(100, v.len());
    for x in &v {
        assert!(3 <= *x && *x < 7);
    }
}

#[test]
fn generator_empty() {
    let v = generate_random_array(0, 0, 10);
    assert!(v.is_empty());
}

#[test]
fn generator_negative_length() {
    let v = generate_random_array(-5, 0, 10);
    assert!(v.is_empty());
}

#[test]
fn generator_single_possible_value() {
    // with a range of one value, the draw is pinned down
    let v = generate_random_array(20, 4, 5);
    assert_eq!(vec![4; 20], v);
    assert!(is_sorted(&v));
}
