use sorts::stable::merge_sort_tagged;
use sorts::stable::merge_tagged;
use sorts::stable::Tagged;

fn t(value: i32, tag: u32) -> Tagged {
    Tagged { value, tag }
}

#[test]
fn merge_sort_keeps_order_of_equal_values() {
    let input = [t(5, 0), t(3, 1), t(5, 2), t(3, 3), t(5, 4)];
    let result = merge_sort_tagged(&input);
    let expected = vec![t(3, 1), t(3, 3), t(5, 0), t(5, 2), t(5, 4)];
    assert_eq!(expected, result);
}

#[test]
fn merge_takes_ties_from_the_left() {
    let left = vec![t(1, 0), t(2, 1)];
    let right = vec![t(1, 2), t(2, 3)];
    let result = merge_tagged(left, right);
    let expected = vec![t(1, 0), t(1, 2), t(2, 1), t(2, 3)];
    assert_eq!(expected, result);
}

#[test]
fn merge_sort_tagged_matches_plain_sort_on_values() {
    let input = [
        t(3, 0),
        t(2, 1),
        t(0, 2),
        t(5, 3),
        t(8, 4),
        t(9, 5),
        t(6, 6),
        t(3, 7),
        t(2, 8),
        t(0, 9),
    ];
    let result = merge_sort_tagged(&input);
    let values: Vec<i32> = result.iter().map(|e| e.value).collect();
    assert_eq!(vec![0, 0, 2, 2, 3, 3, 5, 6, 8, 9], values);
    // equal values keep their input order, visible in the tags
    let tags: Vec<u32> = result.iter().map(|e| e.tag).collect();
    assert_eq!(vec![2, 9, 1, 8, 0, 7, 3, 6, 4, 5], tags);
}
