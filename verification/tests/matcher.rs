use edmgutil::domain::matches_domain;

#[test]
fn test_matches_domain() {
    assert!(matches_domain("*.sentry.io", "sentry.io"));
    assert!(matches_domain("*.sentry.io", "whatever.sentry.io"));
    assert!(matches_domain("*.sentry.io", "whatever.else.sentry.io"));
    assert!(!matches_domain("*.sentry.io", "whatever.else.sentry.com"));
}

#[test]
fn wildcard_needs_dot_boundary() {
    // ends with the suffix but not on a dot boundary
    assert!(!matches_domain("*.sentry.io", "notsentry.io"));
    assert!(!matches_domain("*.entry.io", "sentry.io"));
}

#[test]
fn literal_pattern_is_exact() {
    assert!(matches_domain("sentry.io", "sentry.io"));
    assert!(!matches_domain("sentry.io", "whatever.sentry.io"));
    assert!(!matches_domain("sentry.io", "sentry.io.evil.com"));
    assert!(!matches_domain("whatever.sentry.io", "sentry.io"));
}

#[test]
fn case_sensitive_matching() {
    assert!(!matches_domain("sentry.io", "Sentry.io"));
    assert!(!matches_domain("*.sentry.io", "whatever.Sentry.io"));
}
