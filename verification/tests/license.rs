use rocolatey_lib::license::normalize_license;

#[test]
fn test_normalize_license() {
    assert_eq!(normalize_license("MIT OR Apache-2.0"), "Apache-2.0 OR MIT");
    assert_eq!(normalize_license("Apache-2.0 OR MIT"), "Apache-2.0 OR MIT");
    assert_eq!(normalize_license("MIT/Apache-2.0"), "Apache-2.0 OR MIT");
    assert_eq!(normalize_license("Apache-2.0/MIT"), "Apache-2.0 OR MIT");
    assert_eq!(normalize_license("MIT"), "MIT");
}

#[test]
fn normalize_license_three_way() {
    assert_eq!(
        normalize_license("Zlib OR MIT OR Apache-2.0"),
        "Apache-2.0 OR MIT OR Zlib"
    );
    // ` OR ` wins over `/` when both occur
    assert_eq!(normalize_license("B/C OR A"), "A OR B/C");
}
