use rocolatey_lib::roco::nuget2::{
    get_packages_from_odata, v2_bulk_query, v2_delta_url, v2_package_fragment, v2_probe_batch_size,
    v2_query_base,
};
use rocolatey_lib::roco::nuget3::{extract_packages, get_resource, read_service_index, v3_bulk_query};
use rocolatey_lib::roco::{Feed, FeedType, Package};

fn pkg(id: &str, version: &str) -> Package {
    Package {
        id: id.to_string(),
        version: version.to_string(),
        pinned: false,
        dependencies: None,
    }
}

fn feed(name: &str, url: &str) -> Feed {
    Feed {
        name: name.to_string(),
        url: url.to_string(),
        credential: None,
        proxy: None,
        disabled: false,
        certificate: None,
        bypass_proxy: false,
        self_service: false,
        admin_only: false,
        priority: 0,
        feed_type: FeedType::Unknown,
        service_index: None,
    }
}

#[test]
fn odata_extracts_entries() {
    let xml = "<?xml version=\"1.0\" encoding=\"utf-8\"?>\
        <feed xmlns=\"http://www.w3.org/2005/Atom\">\
        <title>Packages</title>\
        <entry>\
          <title>Chocolatey</title>\
          <m:properties><d:Version>2.2.2</d:Version></m:properties>\
        </entry>\
        <entry>\
          <title>vscode</title>\
          <m:properties><d:Version>1.85.0</d:Version></m:properties>\
        </entry>\
        </feed>";
    let pkgs = get_packages_from_odata(xml);
    assert_eq!(pkgs.len(), 2);
    assert_eq!(pkgs[0].id, "Chocolatey");
    assert_eq!(pkgs[0].version, "2.2.2");
    assert_eq!(pkgs[1].id, "vscode");
    assert_eq!(pkgs[1].version, "1.85.0");
    assert!(!pkgs[0].pinned);
}

#[test]
fn odata_ignores_other_structure() {
    let pkgs = get_packages_from_odata("<feed><title>nothing here</title></feed>");
    assert_eq!(pkgs.len(), 0);
}

#[test]
fn v2_query_shapes() {
    assert_eq!(
        v2_query_base("https://chocolatey.org/api/v2", false),
        "https://chocolatey.org/api/v2/Packages?$filter=IsLatestVersion and ("
    );
    assert_eq!(
        v2_query_base("https://chocolatey.org/api/v2", true),
        "https://chocolatey.org/api/v2/Packages?$filter=IsAbsoluteLatestVersion and ("
    );
    assert_eq!(
        v2_package_fragment(&pkg("GoogleChrome", "1.0")),
        "(tolower(Id) eq 'googlechrome')"
    );
    assert_eq!(
        v2_delta_url("https://f.example", 0, 40, false),
        "https://f.example/Packages()?$filter=IsLatestVersion&$skip=40"
    );
    assert_eq!(
        v2_delta_url("https://f.example", 30, 0, true),
        "https://f.example/Packages()?$filter=IsAbsoluteLatestVersion&$top=30&$skip=0"
    );
}

#[test]
fn v2_probe_counts_entries() {
    assert_eq!(v2_probe_batch_size("<entry>a</entry><entry>b</entry>"), 2);
    assert_eq!(v2_probe_batch_size("no entries at all"), 0);
}

#[test]
fn v2_bulk_query_configuration() {
    let pkgs = vec![pkg("A", "1"), pkg("B", "2")];
    let q = v2_bulk_query(&pkgs, "https://f.example", false, 30);
    assert_eq!(q.base, "https://f.example/Packages?$filter=IsLatestVersion and (");
    assert_eq!(q.delim, " or ");
    assert_eq!(q.terminator, ")");
    assert_eq!(q.fragments, vec!["(tolower(Id) eq 'a')", "(tolower(Id) eq 'b')"]);
    assert_eq!(q.max_batch_size, 30);
    assert_eq!(q.max_url_len, 2047);
    assert_eq!(q.cursor, 0);
}

#[test]
fn v3_bulk_query_configuration() {
    let pkgs = vec![pkg("Chocolatey", "1")];
    let q = v3_bulk_query(&pkgs, "https://search.example/query", true);
    assert_eq!(q.base, "https://search.example/query/?prerelease=true&q=");
    assert_eq!(q.delim, " ");
    assert_eq!(q.terminator, "");
    assert_eq!(q.fragments, vec!["packageid:Chocolatey"]);
    assert_eq!(q.max_batch_size, 100);
}

#[test]
fn v3_extracts_search_data() {
    let body = "{\"totalHits\":2,\"data\":[\
        {\"id\":\"Chocolatey\",\"version\":\"2.2.2\",\"description\":\"x\"},\
        {\"id\":\"vscode\",\"version\":\"1.85.0\"}]}";
    let mut pkgs = Vec::new();
    assert!(extract_packages(&mut pkgs, body));
    assert_eq!(pkgs.len(), 2);
    assert_eq!(pkgs[0].id, "Chocolatey");
    assert_eq!(pkgs[0].version, "2.2.2");
    assert_eq!(pkgs[1].id, "vscode");

    // missing data: a well-formed response with zero packages
    let mut none = Vec::new();
    assert!(extract_packages(&mut none, "{\"totalHits\":0}"));
    assert_eq!(none.len(), 0);

    // malformed body: nothing extracted, reported as failure
    let mut bad = Vec::new();
    assert!(!extract_packages(&mut bad, "not json"));
    assert!(!extract_packages(&mut bad, "{\"data\":[{\"id\":7,\"version\":\"1\"}]}"));
    assert_eq!(bad.len(), 0);
}

#[test]
fn service_index_levels() {
    assert!(read_service_index("<html>").is_none());
    assert_eq!(read_service_index("[1,2,3]").unwrap().map(|_| ()), None);
    let idx = read_service_index("{\"version\":\"3.0.0\"}").unwrap().unwrap();
    assert!(idx.resources.is_none());
    let idx = read_service_index(
        "{\"resources\":[{\"@id\":\"https://s/q\",\"@type\":\"SearchQueryService\"}]}",
    )
    .unwrap()
    .unwrap();
    assert_eq!(idx.resources.as_ref().unwrap().len(), 1);
}

#[test]
fn get_resource_finds_search_service() {
    let mut f = feed("nuget", "https://api.nuget.org/v3/index.json");
    assert!(get_resource(&f, "SearchQueryService").is_none());

    let index = "{\"resources\":[\
        {\"@id\":\"https://s/autocomplete\",\"@type\":\"SearchAutocompleteService\"},\
        {\"@id\":\"https://s/q1\",\"@type\":\"SearchQueryService\"},\
        {\"@id\":\"https://s/q2\",\"@type\":\"SearchQueryService\"}]}";
    f.apply_feed_probe(Some(index));
    let found = get_resource(&f, "SearchQueryService").unwrap();
    assert_eq!(found.len(), 2);
    assert_eq!(found[0].id, "https://s/q1");
    let missing = get_resource(&f, "RegistrationsBaseUrl").unwrap();
    assert_eq!(missing.len(), 0);
}
