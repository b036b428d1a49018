use rocolatey_lib::roco::semver::{is_newer, my_semver_get_v_part, my_semver_is_newer};

#[test]
fn my_semver_get_v_part_test() {
    assert_eq!(my_semver_get_v_part("1"), 1);
    assert_eq!(my_semver_get_v_part("2-something"), 2);
}

#[test]
fn semver_is_newer_test() {
    assert_eq!(2 + 2, 4);
    assert!(is_newer("2.1.0", "1.0.0"));
    assert!(is_newer("2.0.2", "1.12.0"));
    assert!(is_newer("1.2.3.4", "1.2.3"));
    assert!(is_newer("1.2.3.1-beta1", "1.2.3"));
    assert!(!is_newer("1.2.3.1-beta1", "1.2.3.2"));
    assert!(is_newer("1.2.3.2", "1.2.3.1-beta1"));
    assert!(is_newer("1.1.0-alpha", "1.0.0"));
    assert!(is_newer("1.11-alpha", "1.07"));
    assert!(is_newer("1.11", "1.07-alpha"));
    assert!(is_newer("1.1.0-beta2", "1.1.0-beta1"));
    assert!(is_newer("1.1.0-beta2", "1.1.0-beta14")); // this is weird, but matches choco behavior
    assert!(!is_newer("1.12.0", "2.0.2"));
    assert!(!is_newer("1.3.0", "2.1.0"));
    assert!(!is_newer("1.2.3", "1.2.3.1"));
    assert!(!is_newer("1.1.0-alpha", "1.1.0"));
    assert!(is_newer("1.1.0", "1.1.0-alpha"));
}

#[test]
fn is_newer_irreflexive_samples() {
    // no version compares as newer than itself
    let versions = [
        "",
        "1",
        "1.0.0",
        "1.2.3.4",
        "1.1.0-beta2",
        "0.0.0",
        "not-a-version",
        "1..2",
        "2-something",
    ];
    for v in versions {
        assert!(!is_newer(v, v));
    }
}

#[test]
fn is_newer_prefix_and_prerelease_rules() {
    // a longer version wins over its own prefix
    assert!(is_newer("1.2.3.4", "1.2.3"));
    assert!(!is_newer("1.2.3", "1.2.3.1"));
    // a full release is newer than a same-prefix prerelease, not the reverse
    assert!(is_newer("1.1.0", "1.1.0-alpha"));
    assert!(!is_newer("1.1.0-alpha", "1.1.0"));
    // prerelease suffixes compare lexicographically
    assert!(is_newer("1.1.0-beta2", "1.1.0-beta1"));
    assert!(is_newer("1.1.0-beta2", "1.1.0-beta14"));
}

#[test]
fn is_newer_through_private_name() {
    // the public entry point and the worker agree
    assert_eq!(is_newer("2.0", "1.0"), my_semver_is_newer("2.0", "1.0"));
    assert_eq!(is_newer("1.0", "2.0"), my_semver_is_newer("1.0", "2.0"));
}

#[test]
fn get_v_part_edge_cases() {
    assert_eq!(my_semver_get_v_part("10-beta"), 10);
    assert_eq!(my_semver_get_v_part("beta"), 0);
    assert_eq!(my_semver_get_v_part(""), 0);
    assert_eq!(my_semver_get_v_part("007"), 7);
    assert_eq!(my_semver_get_v_part("99999999999999999999"), 0);
}
