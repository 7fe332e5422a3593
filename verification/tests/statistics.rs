use workbench::statistics::{middle, mode};

#[test]
fn test_mode_single() {
    let numbers = vec![1, 2, 3, 3, 4];
    assert_eq!(mode(&numbers), vec![3]);
}

#[test]
fn test_mode_multiple() {
    let numbers = vec![1, 1, 2, 2, 3];
    assert_eq!(mode(&numbers), vec![1, 2]);
}

#[test]
fn test_mode_empty() {
    let numbers = vec![];
    assert_eq!(mode(&numbers), vec![]);
}

#[test]
fn modes_come_out_ascending_and_once() {
    assert_eq!(mode(&[5, 5, 5, 5, 5]), vec![5]);
    assert_eq!(mode(&[9, -3, 9, -3, 0, 7, 7]), vec![-3, 7, 9]);
    assert_eq!(mode(&[3, 2, 1]), vec![1, 2, 3]);
    assert_eq!(mode(&[10, 20, 20, 30, 40, 50, 20, 60]), vec![20]);
    assert_eq!(mode(&[i32::MAX, i32::MIN, i32::MAX, i32::MIN]), vec![i32::MIN, i32::MAX]);
    assert_eq!(mode(&[1, 3, 3, 6, 7, 8, 9]), vec![3]);
    assert_eq!(mode(&[4]), vec![4]);
}

fn median(numbers: &mut Vec<i32>) -> f64 {
    match middle(numbers) {
        Some((low, high)) => (low as f64 + high as f64) / 2.0,
        None => 0.0,
    }
}

#[test]
fn middle_of_an_odd_list_is_one_value() {
    let mut numbers = vec![5, 1, 3];
    assert_eq!(middle(&mut numbers), Some((3, 3)));
    assert_eq!(numbers, vec![1, 3, 5]);
    assert_eq!(median(&mut numbers), 3.0);
    let mut numbers = vec![7];
    assert_eq!(middle(&mut numbers), Some((7, 7)));
}

#[test]
fn middle_of_an_even_list_is_two_values() {
    let mut numbers = vec![4, 1, 3, 2];
    assert_eq!(middle(&mut numbers), Some((2, 3)));
    assert_eq!(numbers, vec![1, 2, 3, 4]);
    assert_eq!(median(&mut numbers), 2.5);
    let mut numbers = vec![i32::MAX, i32::MAX];
    assert_eq!(middle(&mut numbers), Some((i32::MAX, i32::MAX)));
    let mut numbers = vec![2, 1, 9, 4, 8, 6];
    assert_eq!(median(&mut numbers), 5.0);
}

#[test]
fn an_empty_list_has_no_middle() {
    let mut numbers: Vec<i32> = vec![];
    assert_eq!(middle(&mut numbers), None);
    assert!(numbers.is_empty());
    assert_eq!(median(&mut numbers), 0.0);
}

#[test]
fn test_median_odd_length() {
    let mut numbers = vec![1, 3, 5];
    assert_eq!(median(&mut numbers), 3.0);
}

#[test]
fn test_median_even_length() {
    let mut numbers = vec![1, 2, 3, 4];
    assert_eq!(median(&mut numbers), 2.5);
}

#[test]
fn test_median_empty() {
    let mut numbers = vec![];
    assert_eq!(median(&mut numbers), 0.0);
}
