use digit_scanner::scanner::ScanError;
use digit_scanner::search::{find_password, find_prime, RAW_E, TARGET_SUM};

/// Digit-sum of the low ten decimal digits of `v`.
fn digit_sum_of(v: u64) -> u32 {
    let mut v = v;
    let mut sum: u32 = 0;
    for _ in 0..10 {
        sum += (v % 10) as u32;
        v /= 10;
    }
    sum
}

#[test]
fn prime_scan_finds_the_known_prime() {
    let r = find_prime(RAW_E);
    assert_eq!(r, Ok(7427466391));
    let v = r.unwrap();
    assert!(v >= 1_000_000_000 && v < 10_000_000_000);
    assert!(primes::is_prime(v));
}

#[test]
fn password_scan_finds_the_known_candidate() {
    let r = find_password(RAW_E);
    assert_eq!(r, Ok(5966290435));
    let v = r.unwrap();
    assert!(v >= 1_000_000_000 && v < 10_000_000_000);
    assert_eq!(digit_sum_of(v), TARGET_SUM);
    for decoy in [7182818284u64, 8182845904, 8747135266, 7427466391] {
        assert_ne!(v, decoy);
    }
}

#[test]
fn prime_scan_skips_composite_windows() {
    assert_eq!(find_prime("2.41000000007"), Ok(1000000007));
}

#[test]
fn prime_scan_reports_not_found() {
    assert_eq!(find_prime("2.0000000000"), Err(ScanError::NotFound));
    assert_eq!(find_prime("2.4000000008"), Err(ScanError::NotFound));
}

#[test]
fn password_scan_reports_not_found() {
    assert_eq!(find_password("2.1111111111"), Err(ScanError::NotFound));
}

#[test]
fn password_scan_excludes_the_decoys() {
    // The only window of this literal has digit-sum 49, but it is the first
    // decoy, so the scan must not accept it.
    assert_eq!(find_password("2.7182818284"), Err(ScanError::NotFound));
}

#[test]
fn scans_report_parse_error_without_digits() {
    assert_eq!(find_prime("no digits here"), Err(ScanError::ParseError));
    assert_eq!(find_password("2."), Err(ScanError::ParseError));
}
