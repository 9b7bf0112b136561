use edmgutil::expiry::{compute_expiry, is_expired, age_threshold, file_age_ok};
use edmgutil::marker::{format_expiry, parse_expiry, expiry_marker_file_name};

#[test]
fn expiry_is_strictly_before_now() {
    // equal instants are not expired; earlier ones are; later ones are not
    assert!(!is_expired(5, 5));
    assert!(is_expired(4, 5));
    assert!(!is_expired(6, 5));
}

#[test]
fn expiry_computation_adds_whole_days() {
    assert_eq!(compute_expiry(1_600_000_000, 7), 1_600_000_000 + 7 * 86_400);
    assert_eq!(compute_expiry(0, 0), 0);
    assert_eq!(compute_expiry(123, 1), 123 + 86_400);
}

#[test]
fn marker_round_trip() {
    for v in [0u64, 1, 9, 10, 1_600_000_000, u64::MAX] {
        let s = format_expiry(v);
        assert_eq!(parse_expiry(s.as_str()), Some(v));
    }
    assert_eq!(format_expiry(1234567890).as_str(), "1234567890");
}

#[test]
fn marker_rejects_bad_content() {
    assert_eq!(parse_expiry(""), None);
    assert_eq!(parse_expiry("12a4"), None);
    assert_eq!(parse_expiry("-5"), None);
    assert_eq!(parse_expiry(" 17"), None);
    // one more than u64::MAX
    assert_eq!(parse_expiry("18446744073709551616"), None);
    assert_eq!(parse_expiry("18446744073709551615"), Some(u64::MAX));
}

#[test]
fn marker_file_name_is_fixed() {
    assert_eq!(expiry_marker_file_name().as_str(), ".encrypted-volume-good-until");
}

#[test]
fn age_cutoff() {
    assert_eq!(age_threshold(1_000_000, 1), 1_000_000 - 86_400);
    // no threshold: everything passes
    assert!(file_age_ok(Some(999), None));
    assert!(file_age_ok(None, None));
    // threshold given: unknown creation time passes, younger files fail
    assert!(file_age_ok(None, Some(500)));
    assert!(file_age_ok(Some(499), Some(500)));
    assert!(!file_age_ok(Some(500), Some(500)));
    assert!(!file_age_ok(Some(501), Some(500)));
}
