use rocolatey_lib::roco::remote::{
    build_client_config, build_outdated_info, chunk_plan, enabled_feeds, filter_local_packages,
    render_outdated_report, sort_outdated, split_chunks, RemotePackageMap,
};
use rocolatey_lib::roco::{Credential, Feed, FeedType, Package};
use rocolatey_lib::{set_ssl_enabled, set_verbose_mode, is_ssl_required, is_verbose_mode, Settings};

fn pkg(id: &str, version: &str) -> Package {
    Package {
        id: id.to_string(),
        version: version.to_string(),
        pinned: false,
        dependencies: None,
    }
}

fn feed(name: &str, url: &str) -> Feed {
    Feed {
        name: name.to_string(),
        url: url.to_string(),
        credential: None,
        proxy: None,
        disabled: false,
        certificate: None,
        bypass_proxy: false,
        self_service: false,
        admin_only: false,
        priority: 0,
        feed_type: FeedType::Unknown,
        service_index: None,
    }
}

#[test]
fn settings_flags_round_trip() {
    let mut s = Settings::new();
    assert!(!is_ssl_required(&s));
    assert!(!is_verbose_mode(&s));
    set_ssl_enabled(&mut s, true);
    set_verbose_mode(&mut s, true);
    assert!(is_ssl_required(&s));
    assert!(is_verbose_mode(&s));
}

#[test]
fn package_getters() {
    let p = pkg("Foo", "1.2");
    assert_eq!(p.id(), "Foo");
    assert_eq!(p.version(), "1.2");
    assert_eq!(p.pinned(), false);
}

#[test]
fn client_config_carries_auth_and_tls_policy() {
    let mut f = feed("auth", "https://internal/nuget");
    f.credential = Some(Credential {
        user: "username".to_string(),
        pass: "password".to_string(),
    });
    let mut settings = Settings::new();
    let cfg = build_client_config(&f, &settings);
    // RFC 7617 example pair: the header is not the raw credential
    assert_eq!(cfg.auth_header.as_deref(), Some("Basic dXNlcm5hbWU6cGFzc3dvcmQ="));
    assert_eq!(cfg.user_agent, "rocolatey_lib/0.9.3");
    assert!(cfg.accept_invalid_certs);

    set_ssl_enabled(&mut settings, true);
    let cfg = build_client_config(&f, &settings);
    assert!(!cfg.accept_invalid_certs);

    let plain = feed("plain", "https://plain/nuget");
    assert!(build_client_config(&plain, &settings).auth_header.is_none());
}

#[test]
fn feed_type_offline_resolution() {
    let mut local = feed("repo", "C:\\repo\\packages");
    assert_eq!(local.evaluate_feed_type_offline(), Some(FeedType::LocalFileSystem));
    assert_eq!(local.feed_type, FeedType::LocalFileSystem);
    // resolution is idempotent: the cached type is returned unchanged
    assert_eq!(local.evaluate_feed_type_offline(), Some(FeedType::LocalFileSystem));

    let mut v2 = feed("choco", "https://chocolatey.org/api/v2");
    assert_eq!(v2.evaluate_feed_type_offline(), Some(FeedType::NuGetV2));

    let mut v3 = feed("nuget", "https://api.nuget.org/v3/index.json");
    assert_eq!(v3.evaluate_feed_type_offline(), None);
}

#[test]
fn feed_probe_settles_v3_or_v2() {
    let index = "{\"version\":\"3.0.0\",\"resources\":[\
        {\"@id\":\"https://search.example/query\",\"@type\":\"SearchQueryService\"},\
        {\"@id\":\"https://search.example/autocomplete\",\"@type\":\"SearchAutocompleteService\"}]}";
    let mut f = feed("nuget", "https://api.nuget.org/v3/index.json");
    assert_eq!(f.apply_feed_probe(Some(index)), FeedType::NuGetV3);
    assert_eq!(f.feed_type, FeedType::NuGetV3);
    let idx = f.service_index.as_ref().unwrap();
    let resources = idx.resources.as_ref().unwrap();
    assert_eq!(resources.len(), 2);
    assert_eq!(resources[0].id, "https://search.example/query");
    assert_eq!(resources[0].resource_type, "SearchQueryService");

    let mut not_json = feed("odd", "https://feed.example/data.json");
    assert_eq!(not_json.apply_feed_probe(Some("<html>not json</html>")), FeedType::NuGetV2);
    assert_eq!(not_json.feed_type, FeedType::NuGetV2);
    assert!(not_json.service_index.is_none());

    let mut failed = feed("down", "https://feed.example/index.json");
    assert_eq!(failed.apply_feed_probe(None), FeedType::NuGetV2);
}

#[test]
fn enabled_feeds_drops_disabled() {
    let mut off = feed("off", "https://off.example");
    off.disabled = true;
    let feeds = vec![feed("a", "https://a.example"), off, feed("b", "https://b.example")];
    let enabled = enabled_feeds(feeds);
    assert_eq!(enabled.len(), 2);
    assert_eq!(enabled[0].name, "a");
    assert_eq!(enabled[1].name, "b");
}

#[test]
fn chunk_plan_matches_formula() {
    // max(2, min(threads, threads / feeds)), then a ceiling division
    assert_eq!(chunk_plan(8, 2, 10), (4, 3));
    assert_eq!(chunk_plan(8, 8, 10), (2, 5));
    assert_eq!(chunk_plan(1, 1, 1), (2, 1));
    assert_eq!(chunk_plan(16, 3, 7), (5, 2));
}

#[test]
fn split_chunks_preserves_order() {
    let pkgs = vec![pkg("a", "1"), pkg("b", "1"), pkg("c", "1"), pkg("d", "1"), pkg("e", "1")];
    let chunks = split_chunks(pkgs, 2);
    assert_eq!(chunks.len(), 3);
    let ids: Vec<Vec<&str>> = chunks
        .iter()
        .map(|c| c.iter().map(|p| p.id.as_str()).collect())
        .collect();
    assert_eq!(ids, vec![vec!["a", "b"], vec!["c", "d"], vec!["e"]]);
}

#[test]
fn merge_newest_wins_either_order() {
    // the same two versions merge to the newer one whatever the order the
    // tasks completed in
    let mut m1 = RemotePackageMap::new();
    m1.merge(vec![pkg("pkgA", "1.0")]);
    m1.merge(vec![pkg("pkga", "2.0")]);
    assert_eq!(m1.get("pkga").unwrap().version, "2.0");

    let mut m2 = RemotePackageMap::new();
    m2.merge(vec![pkg("pkga", "2.0")]);
    m2.merge(vec![pkg("pkgA", "1.0")]);
    assert_eq!(m2.get("pkga").unwrap().version, "2.0");
}

#[test]
fn merge_keeps_first_on_tie() {
    let mut m = RemotePackageMap::new();
    m.merge(vec![pkg("x", "1.0"), pkg("X", "1.0")]);
    assert_eq!(m.get("x").unwrap().id, "x");
    assert!(m.get("y").is_none());
}

#[test]
fn filter_local_packages_modes() {
    let local = vec![pkg("foo", "1.0"), pkg("bar", "2.0")];
    let all = filter_local_packages(local.clone(), "all").unwrap();
    assert_eq!(all.len(), 2);
    let one = filter_local_packages(local.clone(), "bar").unwrap();
    assert_eq!(one.len(), 1);
    assert_eq!(one[0].id, "bar");
    // package identity is case-insensitive; the kept id stays as installed
    let one = filter_local_packages(local.clone(), "BAR").unwrap();
    assert_eq!(one.len(), 1);
    assert_eq!(one[0].id, "bar");
    let err = filter_local_packages(local, "baz").unwrap_err();
    assert_eq!(err, "package 'baz' not present in local packages.");
}

#[test]
fn outdated_respects_pinned_policy() {
    // a pinned local package with a newer remote: skipped under
    // ignore-pinned, reported with its pinned flag otherwise
    let mut local = vec![pkg("foo", "1.0")];
    local[0].pinned = true;
    let mut remote = RemotePackageMap::new();
    remote.merge(vec![pkg("foo", "2.0")]);

    let records = build_outdated_info(&local, &remote, true, true);
    assert_eq!(records.len(), 0);

    let records = build_outdated_info(&local, &remote, false, true);
    assert_eq!(records.len(), 1);
    let records = sort_outdated(records);
    assert_eq!(render_outdated_report(&records, true, false), "foo|1.0|2.0|true\n");
}

#[test]
fn outdated_reports_unfound_as_warning() {
    let local = vec![pkg("bar", "1.0")];
    let remote = RemotePackageMap::new();

    let ignored = build_outdated_info(&local, &remote, false, true);
    assert_eq!(ignored.len(), 0);

    let records = build_outdated_info(&local, &remote, false, false);
    assert_eq!(records.len(), 1);
    assert!(!records[0].exists_on_remote);
    assert!(!records[0].outdated);
    assert_eq!(records[0].remote_version, "1.0");
    let records = sort_outdated(records);
    let report = render_outdated_report(&records, false, false);
    let expected = "Outdated Packages\n Output is package name | current version | available version | pinned?\n\nbar|1.0|1.0|false\n\nRocolatey has determined 0 package(s) are outdated.\n 1 package(s) had warnings.\nWarnings:\n - bar\n";
    assert_eq!(report, expected);
}

#[test]
fn outdated_report_sorted_case_insensitively() {
    let local = vec![pkg("beta", "1.0"), pkg("Alpha", "1.0")];
    let mut remote = RemotePackageMap::new();
    remote.merge(vec![pkg("beta", "2.0"), pkg("alpha", "3.0")]);
    let records = build_outdated_info(&local, &remote, true, true);
    let records = sort_outdated(records);
    assert_eq!(render_outdated_report(&records, true, true), "Alpha beta ");
    let report = render_outdated_report(&records, false, false);
    assert!(report.contains("Alpha|1.0|3.0|false\nbeta|1.0|2.0|false\n"));
    assert!(report.contains("Rocolatey has determined 2 package(s) are outdated.\n"));
    assert!(!report.contains("warnings"));
}

#[test]
fn outdated_not_reported_when_remote_not_newer() {
    let local = vec![pkg("foo", "2.0")];
    let mut remote = RemotePackageMap::new();
    remote.merge(vec![pkg("foo", "2.0")]);
    let records = build_outdated_info(&local, &remote, true, true);
    assert_eq!(records.len(), 0);
}
