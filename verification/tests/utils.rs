use richterm::utils::iter::{loop_first, loop_first_last, loop_last};
use richterm::utils::pick::pick_bool;
use richterm::utils::ratio::{ratio_distribute, ratio_reduce};

const TEST_ITERABLE: [&'static str; 4] = ["a", "b", "c", "d"];

#[test]
fn test_loop_first() {
    let empty_vec: Vec<i32> = Vec::new();
    assert_eq!(loop_first(&empty_vec), vec![]);
    let mut iter = loop_first(&TEST_ITERABLE).into_iter();
    assert_eq!(iter.next().unwrap(), (true, &TEST_ITERABLE[0]));
    assert_eq!(iter.next().unwrap(), (false, &TEST_ITERABLE[1]));
    assert_eq!(iter.next().unwrap(), (false, &TEST_ITERABLE[2]));
    assert_eq!(iter.next().unwrap(), (false, &TEST_ITERABLE[3]));
}

#[test]
fn test_loop_last() {
    let empty_vec: Vec<i32> = Vec::new();
    assert_eq!(loop_last(&empty_vec), vec![]);
    let mut iter = loop_last(&TEST_ITERABLE).into_iter();
    assert_eq!(iter.next().unwrap(), (false, &TEST_ITERABLE[0]));
    assert_eq!(iter.next().unwrap(), (false, &TEST_ITERABLE[1]));
    assert_eq!(iter.next().unwrap(), (false, &TEST_ITERABLE[2]));
    assert_eq!(iter.next().unwrap(), (true, &TEST_ITERABLE[3]));
}

#[test]
fn test_loop_first_last() {
    let empty_vec: Vec<i32> = Vec::new();
    assert_eq!(loop_first_last(&empty_vec), vec![]);
    let mut iter = loop_first_last(&TEST_ITERABLE).into_iter();
    assert_eq!(iter.next().unwrap(), (true, &TEST_ITERABLE[0]));
    assert_eq!(iter.next().unwrap(), (false, &TEST_ITERABLE[1]));
    assert_eq!(iter.next().unwrap(), (false, &TEST_ITERABLE[2]));
    assert_eq!(iter.next().unwrap(), (true, &TEST_ITERABLE[3]));
}

#[test]
fn loop_first_last_flags_a_single_value() {
    assert_eq!(loop_first_last(&[7]), vec![(true, &7)]);
    assert_eq!(loop_first(&[7]), vec![(true, &7)]);
    assert_eq!(loop_last(&[7]), vec![(true, &7)]);
}

#[test]
fn test_pick_bool() {
    assert_eq!(pick_bool(&[]), false);
    assert_eq!(pick_bool(&[Some(true)]), true);
    assert_eq!(pick_bool(&[Some(false), Some(false)]), false);
}

#[test]
fn pick_bool_skips_what_is_not_set() {
    assert_eq!(pick_bool(&[None, Some(true), Some(false)]), true);
    assert_eq!(pick_bool(&[None, None]), false);
    assert_eq!(pick_bool(&[Some(false), Some(true)]), false);
}

#[test]
fn test_ratio_reduce() {
    let cases = [
        (20, [2, 4], [20, 20], [5, 5], [-2, -8]),
        (20, [2, 4], [1, 1], [5, 5], [4, 4]),
        (20, [2, 4], [1, 1], [2, 2], [1, 1]),
        (3, [2, 4], [3, 3], [2, 2], [1, 0]),
        (3, [2, 4], [3, 3], [0, 0], [-1, -2]),
        (3, [0, 0], [3, 3], [4, 4], [4, 4]),
    ];

    for (total, ratios, maximums, values, result) in &cases {
        assert_eq!(ratio_reduce(*total, ratios, maximums, values), result);
    }
}

#[test]
fn ratio_reduce_leaves_out_what_does_not_count() {
    assert_eq!(ratio_reduce(10, &[1, 0, 1], &[10, 10, 10], &[7, 8, 9]), [2, 4]);
    assert_eq!(ratio_reduce(10, &[1, 1, 1], &[10, 0, 10], &[7, 8, 9]), [2, 4]);
    assert_eq!(ratio_reduce(5, &[1, 1], &[10, 10], &[7, 8]), [4, 6]);
    assert_eq!(ratio_reduce(10, &[], &[], &[1, 2]), [1, 2]);
}

#[test]
fn test_ratio_distribute() {
    assert_eq!(ratio_distribute(10, &[1], None), [10]);
    assert_eq!(ratio_distribute(10, &[1, 1], None), [5, 5]);
    assert_eq!(ratio_distribute(12, &[1, 3], None), [3, 9]);
    assert_eq!(ratio_distribute(0, &[1, 3], None), [0, 0]);
    assert_eq!(ratio_distribute(0, &[1, 3], Some(&[1, 1])), [1, 1]);
    assert_eq!(ratio_distribute(10, &[1, 0], None), [10, 0]);
}

#[test]
fn ratio_distribute_rounds_up_and_keeps_minimums() {
    assert_eq!(ratio_distribute(10, &[1, 1, 1], None), [4, 3, 3]);
    assert_eq!(ratio_distribute(10, &[1, 1], Some(&[8, 1])), [8, 2]);
    assert_eq!(ratio_distribute(10, &[1, 5], Some(&[0, 1])), [0, 10]);
    assert_eq!(ratio_distribute(10, &[1, 1, 7], Some(&[1, 1])), [5, 5]);
}
