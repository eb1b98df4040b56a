use huturs_core::math::{
    abs, add, cube, divide, is_even, is_odd, max, max_in_array, min, min_in_array, multiply,
    power, square, subtract, sum,
};

#[test]
fn arithmetic_values() {
    assert_eq!(add(2, 3), 5);
    assert_eq!(add(-7, 3), -4);
    assert_eq!(subtract(2, 3), -1);
    assert_eq!(multiply(-4, 6), -24);
    assert_eq!(divide(7, 2), 3);
    assert_eq!(divide(-7, 2), -3);
    assert_eq!(divide(7, -2), -3);
    assert_eq!(divide(-7, -2), 3);
    assert_eq!(divide(i64::MIN, 1), i64::MIN);
}

#[test]
fn abs_max_min() {
    assert_eq!(abs(-5), 5);
    assert_eq!(abs(5), 5);
    assert_eq!(abs(0), 0);
    assert_eq!(max(3, 9), 9);
    assert_eq!(max(-3, -9), -3);
    assert_eq!(min(3, 9), 3);
    assert_eq!(min(-3, -9), -9);
}

#[test]
fn powers() {
    assert_eq!(square(-12), 144);
    assert_eq!(cube(-3), -27);
    assert_eq!(power(2, 10), 1024);
    assert_eq!(power(-3, 3), -27);
    assert_eq!(power(7, 1), 7);
    assert_eq!(power(5, 0), 1);
    assert_eq!(power(0, 0), 1);
    assert_eq!(power(-2, 63), i64::MIN);
}

#[test]
fn parity() {
    assert!(is_even(0));
    assert!(is_even(-4));
    assert!(!is_even(7));
    assert!(is_odd(-3));
    assert!(!is_odd(10));
}

#[test]
fn slice_sum_and_extremes() {
    assert_eq!(sum(&[1, 2, 3, 4, 5]), 15);
    assert_eq!(sum(&[-10]), -10);
    assert_eq!(max_in_array(&[3, 9, -2, 9, 4]), Some(9));
    assert_eq!(min_in_array(&[3, 9, -2, 9, 4]), Some(-2));
    assert_eq!(max_in_array(&[]), None);
    assert_eq!(min_in_array(&[]), None);
    assert_eq!(max_in_array(&[42]), Some(42));
}
