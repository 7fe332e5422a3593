use workbench::arith::{add_one, add_two};

#[test]
fn it_works() {
    let result = add_one(2);
    assert_eq!(result, 3);
}

#[test]
fn lib_it_works() {
    let result = add_two(2);
    assert_eq!(result, 4);
}

#[test]
fn add_one_handles_negative_and_zero() {
    assert_eq!(add_one(5), 6);
    assert_eq!(add_one(-1), 0);
    assert_eq!(add_one(0), 1);
    assert_eq!(add_one(i32::MAX - 1), i32::MAX);
    assert_eq!(add_one(i32::MIN), i32::MIN + 1);
}

#[test]
fn add_two_handles_negative_and_zero() {
    assert_eq!(add_two(5), 7);
    assert_eq!(add_two(-2), 0);
    assert_eq!(add_two(0), 2);
    assert_eq!(add_two(i32::MAX - 2), i32::MAX);
}

use workbench::arith::nth_term;

#[test]
fn fibonacci_terms_start_at_zero() {
    let first: Vec<Option<u32>> = (0..11).map(nth_term).collect();
    let expected: Vec<Option<u32>> =
        [0, 1, 1, 2, 3, 5, 8, 13, 21, 34, 55].iter().map(|term| Some(*term)).collect();
    assert_eq!(first, expected);
}

#[test]
fn fibonacci_terms_stop_where_32_bits_end() {
    assert_eq!(nth_term(46), Some(1_836_311_903));
    assert_eq!(nth_term(47), Some(2_971_215_073));
    assert_eq!(nth_term(48), None);
    assert_eq!(nth_term(49), None);
    assert_eq!(nth_term(1000), None);
    assert_eq!(nth_term(u32::MAX), None);
}
