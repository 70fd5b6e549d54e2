use simple_splitter::shares::{share_amount, sum_weights};
use simple_splitter::SplitterError;

#[test]
fn weights_are_summed_in_128_bits() {
    assert_eq!(sum_weights(&vec![]), 0);
    assert_eq!(sum_weights(&vec![0, 0, 0]), 0);
    assert_eq!(sum_weights(&vec![2, 0, 1]), 3);
    assert_eq!(sum_weights(&vec![u32::MAX, u32::MAX, u32::MAX]), 3 * (u32::MAX as u128));
}

#[test]
fn share_is_the_floor_of_the_pro_rata_part() {
    assert_eq!(share_amount(100, 1, 3), Ok(33));
    assert_eq!(share_amount(99, 2, 3), Ok(66));
    assert_eq!(share_amount(90, 0, 3), Ok(0));
    assert_eq!(share_amount(0, 5, 7), Ok(0));
    assert_eq!(share_amount(2, 1, 3), Ok(0));
    assert_eq!(share_amount(1000, 11, 26), Ok(423));
    assert_eq!(share_amount(7, 3, 3), Ok(7));
}

#[test]
fn share_reports_overflow_of_the_product_and_of_the_result() {
    // The product does not fit 128 bits.
    assert_eq!(share_amount(u128::MAX, 2, 2), Err(SplitterError::ArithmeticOverflow));
    assert_eq!(share_amount(1 << 127, 2, 1_000_000), Err(SplitterError::ArithmeticOverflow));
    // The product fits, the quotient does not fit the signed amount type.
    assert_eq!(share_amount(u128::MAX, 1, 1), Err(SplitterError::ArithmeticOverflow));
    assert_eq!(share_amount(1 << 127, 1, 1), Err(SplitterError::ArithmeticOverflow));
    // The largest values that still fit.
    assert_eq!(share_amount(u128::MAX, 1, 2), Ok(i128::MAX));
    assert_eq!(share_amount(i128::MAX as u128, 2, 2), Ok(i128::MAX));
    assert_eq!(share_amount((1 << 96) - 1, u32::MAX, 1 << 40), Ok(((((1u128 << 96) - 1) * (u32::MAX as u128)) >> 40) as i128));
}
