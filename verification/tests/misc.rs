use ledger_core::attribute::{category_of, Category};
use ledger_core::fib::fibonacci_numbers;
use ledger_core::guard::{checked_add, checked_sub};
use ledger_core::errors::LedgerError;
use ledger_core::subarray::check_sub_array;

#[test]
fn category_follows_length_parity() {
    assert_eq!(category_of(&[]), Category::Even);
    assert_eq!(category_of(&[1]), Category::Odd);
    assert_eq!(category_of(&[1, 2]), Category::Even);
    assert_eq!(category_of(&[1, 2, 3]), Category::Odd);
}

#[test]
fn checked_arithmetic_reports_range_errors() {
    assert_eq!(checked_add(2, 3), Ok(5));
    assert_eq!(checked_add(u64::MAX, 1), Err(LedgerError::Overflow));
    assert_eq!(checked_add(u64::MAX, 0), Ok(u64::MAX));
    assert_eq!(checked_sub(5, 3), Ok(2));
    assert_eq!(checked_sub(3, 5), Err(LedgerError::Underflow));
    assert_eq!(checked_sub(3, 3), Ok(0));
}

#[test]
fn fibonacci_yields_the_sequence() {
    let mut f = fibonacci_numbers();
    let mut got = Vec::new();
    for _ in 0..10 {
        got.push(f.next().unwrap());
    }
    assert_eq!(got, vec![1, 2, 3, 5, 8, 13, 21, 34, 55, 89]);
}

#[test]
fn fibonacci_stops_at_the_integer_range() {
    let mut f = fibonacci_numbers();
    let mut last = 0;
    let mut steps = 0;
    while let Some(x) = f.next() {
        last = x;
        steps += 1;
        assert!(steps < 100);
    }
    assert!(last > u32::MAX / 2);
    assert_eq!(f.next(), None);
    assert_eq!(f.next(), None);
}

#[test]
fn sub_array_is_found() {
    let arr: &[i32] = &[1, 54, 3, 1, 2, 5, 6, 7, 7, 3, 2];
    let sub: &[i32] = &[1, 54];
    assert!(check_sub_array(arr, sub));
    assert!(check_sub_array(arr, &[7, 7, 3]));
    assert!(check_sub_array(arr, &[2]));
    assert!(check_sub_array(arr, arr));
}

#[test]
fn sub_array_absent_or_empty_is_false() {
    let arr: &[i32] = &[1, 54, 3, 1, 2];
    assert!(!check_sub_array(arr, &[54, 1]));
    assert!(!check_sub_array(arr, &[9]));
    assert!(!check_sub_array(arr, &[]));
}
