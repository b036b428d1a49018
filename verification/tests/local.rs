use rocolatey_lib::roco::local::{
    get_dependency_tree_text, get_local_bad_packages_text, get_local_packages_text,
    get_package_from_nupkg_filename, get_package_from_nuspec_text, get_package_list_text,
    get_sources_text, is_prerelease_version, select_nupkg_packages,
};
use rocolatey_lib::roco::{Dependency, Feed, FeedType, Package};

fn pkg(id: &str, version: &str) -> Package {
    Package {
        id: id.to_string(),
        version: version.to_string(),
        pinned: false,
        dependencies: None,
    }
}

#[test]
fn get_package_from_nupkg_test() {
    let pkg = get_package_from_nupkg_filename("googlechrome.80.0.3987.149.nupkg").unwrap();
    assert_eq!(pkg.id, "googlechrome");
    assert_eq!(pkg.version, "80.0.3987.149");
    assert_eq!(pkg.pinned, false);
}

#[test]
fn nupkg_filename_prerelease_and_dots() {
    let p = get_package_from_nupkg_filename("my.pkg.1.2-beta.1.nupkg").unwrap();
    assert_eq!(p.id, "my.pkg");
    assert_eq!(p.version, "1.2-beta.1");

    let p = get_package_from_nupkg_filename("a.1.nupkg").unwrap();
    assert_eq!(p.id, "a");
    assert_eq!(p.version, "1");

    assert!(get_package_from_nupkg_filename("foo.nupkg").is_none());
    assert!(get_package_from_nupkg_filename("foo.bar").is_none());
    assert!(get_package_from_nupkg_filename("foo.beta-1.nupkg").is_none());
}

#[test]
fn get_package_from_nuspec_test() {
    let nuspec = "<?xml version=\"1.0\" encoding=\"utf-8\"?>\
        <package><metadata>\
        <id>Chocolatey</id>\
        <version>2.0</version>\
        <authors>somebody</authors>\
        </metadata></package>";
    let pkg = get_package_from_nuspec_text(nuspec);
    assert_eq!(pkg.id, "Chocolatey");
    assert_eq!(pkg.version, "2.0");
    assert_eq!(pkg.pinned, false);
}

#[test]
fn prerelease_detection() {
    assert!(!is_prerelease_version("80.0.3987.149"));
    assert!(is_prerelease_version("1.0.0-beta1"));
    assert!(is_prerelease_version("1.2-rc.1"));
    // five numeric runs fall outside the loose prerelease pattern
    assert!(!is_prerelease_version("1.2.3.4.5-pre"));
    assert!(!is_prerelease_version("-beta"));
    assert!(!is_prerelease_version("1.0-"));
    assert!(!is_prerelease_version("beta-1"));
}

#[test]
fn select_nupkgs_filters_prereleases_and_ids() {
    let requested = vec![pkg("Firefox", "81.0.0.0")];
    let candidates = vec![
        pkg("firefox", "82.0"),
        pkg("firefox", "83.0-beta1"),
        pkg("GoogleChrome", "80.0"),
    ];
    let stable = select_nupkg_packages(candidates.clone(), &requested, false);
    assert_eq!(stable.len(), 1);
    assert_eq!(stable[0].id, "firefox");
    assert_eq!(stable[0].version, "82.0");

    let with_pre = select_nupkg_packages(candidates, &requested, true);
    assert_eq!(with_pre.len(), 2);
    assert_eq!(with_pre[1].version, "83.0-beta1");
}

#[test]
fn package_list_text_formats() {
    let packages = vec![pkg("alpha", "1.0"), pkg("beta", "2.0")];
    assert_eq!(
        get_package_list_text("all", packages.clone(), true),
        "alpha|1.0\r\nbeta|2.0"
    );
    assert_eq!(
        get_package_list_text("all", packages.clone(), false),
        "alpha 1.0\r\nbeta 2.0"
    );
    // the filter is matched against the id as given, case-sensitively
    assert_eq!(get_package_list_text("alpha", packages.clone(), true), "alpha|1.0\r\n");
    assert_eq!(get_package_list_text("gamma", packages, true), "");
}

#[test]
fn local_packages_text_counts() {
    let packages = vec![pkg("alpha", "1.0")];
    assert_eq!(
        get_local_packages_text(packages.clone(), "all", false),
        "alpha 1.0\r\n1 packages installed."
    );
    assert_eq!(get_local_packages_text(packages, "all", true), "alpha|1.0");
    let bad = vec![pkg("broken", "0.1")];
    assert_eq!(
        get_local_bad_packages_text(bad, false),
        "broken 0.1\r\n1 packages in lib-bad."
    );
}

fn feed(name: &str, url: &str) -> Feed {
    Feed {
        name: name.to_string(),
        url: url.to_string(),
        credential: None,
        proxy: None,
        disabled: false,
        certificate: None,
        bypass_proxy: false,
        self_service: false,
        admin_only: false,
        priority: 0,
        feed_type: FeedType::Unknown,
        service_index: None,
    }
}

#[test]
fn sources_text_formats() {
    let feeds = vec![feed("chocolatey", "https://chocolatey.org/api/v2")];
    assert_eq!(
        get_sources_text(&feeds, true),
        "chocolatey|https://chocolatey.org/api/v2|False|||0|False|False|False"
    );
    assert_eq!(
        get_sources_text(&feeds, false),
        "chocolatey - https://chocolatey.org/api/v2 | Priority 0|Bypass Proxy - False|Self-Service - False|Admin Only - False."
    );
    let mut disabled = feed("internal", "https://internal/nuget");
    disabled.disabled = true;
    disabled.priority = 101;
    let feeds = vec![disabled];
    assert_eq!(
        get_sources_text(&feeds, false),
        "internal [Disabled] - https://internal/nuget | Priority 101|Bypass Proxy - False|Self-Service - False|Admin Only - False."
    );
}

#[test]
fn dependency_tree_text_renders() {
    let mut a = pkg("alpha", "1.0");
    a.dependencies = Some(vec![Dependency {
        id: "beta".to_string(),
        version: "2.0".to_string(),
    }]);
    let b = pkg("beta", "2.0");
    let packages = vec![a, b];
    let text = get_dependency_tree_text(&packages, "alpha");
    assert_eq!(text, "alpha (1.0)\r\n |-beta (2.0)\r\n");

    let mut lonely = pkg("gamma", "3.0");
    lonely.dependencies = Some(vec![Dependency {
        id: "missing".to_string(),
        version: String::new(),
    }]);
    let packages = vec![lonely];
    let text = get_dependency_tree_text(&packages, "all");
    assert_eq!(
        text,
        "gamma (3.0)\r\n |-missing \r\nERROR: failed to locate missing among local packages\r\n"
    );
}
