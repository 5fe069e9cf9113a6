use digit_scanner::scanner::{E, ScanError};

const WIDTH: usize = 10;

/// Digit-sum of the low ten decimal digits of `v`.
fn digit_sum_of(v: u64) -> u32 {
    let mut v = v;
    let mut sum: u32 = 0;
    for _ in 0..WIDTH {
        sum += (v % 10) as u32;
        v /= 10;
    }
    sum
}

/// The low ten decimal digits of `v`, most significant first, zero-padded.
fn digits_of(v: u64) -> Vec<u32> {
    let mut v = v;
    let mut ds = vec![0u32; WIDTH];
    for i in (0..WIDTH).rev() {
        ds[i] = (v % 10) as u32;
        v /= 10;
    }
    ds
}

#[test]
fn first_window_of_short_literal() {
    let mut e = E::from_str("2.718281828459045").unwrap();
    assert_eq!(e.get_next_number(WIDTH), Ok(7182818284));
}

#[test]
fn window_value_roundtrips_to_source_digits() {
    let mut e = E::from_str("2.0123456789").unwrap();
    let v = e.get_next_number(WIDTH).unwrap();
    assert_eq!(v, 123456789);
    assert_eq!(digits_of(v), vec![0, 1, 2, 3, 4, 5, 6, 7, 8, 9]);
}

#[test]
fn consecutive_windows_overlap_by_nine() {
    let mut e = E::from_str("2.1234567890123").unwrap();
    let v0 = e.get_next_number(WIDTH).unwrap();
    let v1 = e.get_next_number(WIDTH).unwrap();
    assert_eq!(v0, 1234567890);
    assert_eq!(v1, 2345678901);
    assert_eq!(v0 % 1_000_000_000, v1 / 10);
}

#[test]
fn sum_matches_digit_sum_of_value() {
    let mut e = E::from_str("2.9876543210555").unwrap();
    let (v, sum) = e.sum_of_next_number(WIDTH).unwrap();
    assert_eq!(v, 9876543210);
    assert_eq!(sum, 45);
    assert_eq!(sum, digit_sum_of(v));
    let (v2, sum2) = e.sum_of_next_number(WIDTH).unwrap();
    assert_eq!(sum2, digit_sum_of(v2));
}

#[test]
fn out_of_range_when_fewer_than_ten_digits_remain() {
    let mut e = E::from_str("2.123456789").unwrap();
    assert_eq!(e.get_next_number(WIDTH), Err(ScanError::OutOfRange));
    let mut f = E::from_str("2.1234567890").unwrap();
    assert_eq!(f.get_next_number(WIDTH), Ok(1234567890));
    assert_eq!(f.get_next_number(WIDTH), Err(ScanError::OutOfRange));
    assert_eq!(f.sum_of_next_number(WIDTH), Err(ScanError::OutOfRange));
}

#[test]
fn parse_error_when_no_digits_follow_a_dot() {
    assert!(E::from_str("2.").is_err());
    assert!(E::from_str("").is_err());
    assert!(E::from_str("no digits at all").is_err());
    assert!(E::from_str("271828").is_err());
}

#[test]
fn newlines_and_spacing_are_discarded() {
    let mut e = E::from_str("2.71828\n  18284\n59045").unwrap();
    assert_eq!(e.get_next_number(WIDTH), Ok(7182818284));
}

#[test]
fn independent_scanners_agree_on_identical_call_sequences() {
    let literal = digit_scanner::search::RAW_E;
    let mut a = E::from_str(literal).unwrap();
    let mut b = E::from_str(literal).unwrap();
    for _ in 0..40 {
        assert_eq!(a.get_next_number(WIDTH), b.get_next_number(WIDTH));
    }
    for _ in 0..40 {
        assert_eq!(a.sum_of_next_number(WIDTH), b.sum_of_next_number(WIDTH));
    }
}
