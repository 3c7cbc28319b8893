use fixmanager::version::{compare_versions, parse_version_from_tag, version_numbers_of};

#[test]
fn newer_patch_is_an_update() {
    assert!(compare_versions("1.0.0", "1.0.1"));
    assert!(!compare_versions("1.0.1", "1.0.0"));
}

#[test]
fn components_compare_as_numbers() {
    assert!(compare_versions("1.2", "1.10"));
    assert!(!compare_versions("1.10", "1.2"));
    assert!(!compare_versions("2.0", "1.9"));
}

#[test]
fn equal_versions_are_not_newer() {
    assert!(!compare_versions("1.0", "1.0"));
    assert!(!compare_versions("1.0", "1.00"));
    assert!(!compare_versions("1.00", "1.0"));
}

#[test]
fn longer_version_with_same_prefix_is_newer() {
    assert!(compare_versions("1.0", "1.0.0"));
    assert!(!compare_versions("1.0.0", "1.0"));
}

#[test]
fn non_numeric_parts_count_as_zero() {
    assert!(!compare_versions("1.a", "1.0"));
    assert!(!compare_versions("1.0", "1.beta"));
    assert!(compare_versions("1.beta", "1.1"));
    assert_eq!(version_numbers_of("1.x.3"), vec![1, 0, 3]);
}

#[test]
fn parts_follow_u32_parsing() {
    assert_eq!(version_numbers_of("+2.-1. 3"), vec![2, 0, 0]);
    assert_eq!(version_numbers_of("4294967295.4294967296"), vec![4294967295, 0]);
    assert_eq!(version_numbers_of(""), vec![0]);
    assert_eq!(version_numbers_of("1..2."), vec![1, 0, 2, 0]);
    assert_eq!(version_numbers_of("007"), vec![7]);
}

#[test]
fn version_order_is_transitive_on_examples() {
    assert!(compare_versions("0.9", "1.0"));
    assert!(compare_versions("1.0", "1.0.5"));
    assert!(compare_versions("0.9", "1.0.5"));
}

#[test]
fn tag_with_v_prefix() {
    assert_eq!(parse_version_from_tag("v1.2.3"), Some("1.2.3".to_string()));
    assert_eq!(parse_version_from_tag("vvv4"), Some("4".to_string()));
    assert_eq!(parse_version_from_tag("v"), Some("".to_string()));
}

#[test]
fn tag_with_version_prefix_ignores_case() {
    assert_eq!(parse_version_from_tag("version_2.0"), Some("2.0".to_string()));
    assert_eq!(parse_version_from_tag("  Version_2.0 "), Some("2.0".to_string()));
    assert_eq!(parse_version_from_tag("VERSION_3_1"), Some("3_1".to_string()));
    assert_eq!(parse_version_from_tag("version_"), Some("".to_string()));
}

#[test]
fn tag_starting_with_digit_is_kept() {
    assert_eq!(parse_version_from_tag("1.5"), Some("1.5".to_string()));
    assert_eq!(parse_version_from_tag("\t2.0-beta\n"), Some("2.0-beta".to_string()));
}

#[test]
fn other_tags_name_no_version() {
    assert_eq!(parse_version_from_tag("release-1"), None);
    assert_eq!(parse_version_from_tag(""), None);
    assert_eq!(parse_version_from_tag("   "), None);
    assert_eq!(parse_version_from_tag("V1.0"), None);
}
