use sem::paths::{is_default_excluded, is_test_or_fixture_path, normalize_exts};

#[test]
fn test_paths_are_recognised_by_segment() {
    assert!(is_test_or_fixture_path("src/tests/a.rs"));
    assert!(is_test_or_fixture_path("test/a.py"));
    assert!(is_test_or_fixture_path("a/__mocks__"));
    assert!(!is_test_or_fixture_path("src/testing/a.rs"));
    assert!(!is_test_or_fixture_path("src/latest.rs"));
    assert!(!is_test_or_fixture_path(""));
}

#[test]
fn default_exclusions_cover_lockfiles_and_vendor_dirs() {
    assert!(is_default_excluded("Cargo.lock"));
    assert!(is_default_excluded("web/package-lock.json"));
    assert!(is_default_excluded("vendor/lib.go"));
    assert!(is_default_excluded("a/node_modules/x/index.js"));
    assert!(is_default_excluded("tests/fixtures/a.py"));
    assert!(!is_default_excluded("tests/a.py"));
    assert!(!is_default_excluded("Cargo.lock/real.rs"));
    assert!(!is_default_excluded("src/main.rs"));
}

#[test]
fn normalize_exts_adds_missing_dots() {
    let exts = vec!["rs".to_string(), ".py".to_string(), "".to_string()];
    assert_eq!(normalize_exts(&exts), vec![".rs".to_string(), ".py".to_string(), ".".to_string()]);
}
