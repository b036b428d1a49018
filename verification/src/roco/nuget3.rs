//! The NuGet V3 (JSON search API) adapter: the service-index data model,
//! locating the search resource, query construction, and extraction of
//! packages from a search response.  Reading the JSON documents is left to
//! an outside parser behind two trusted wrappers; everything done with what
//! they hand back is verified code.

use vstd::prelude::*;

verus! {

use vstd::string::StringExecFns;
use crate::roco::Package;
use crate::roco::bulk::BulkQuery;

/// The resource list a V3 service index advertises.
#[derive(Clone, Debug)]
pub struct NuGetV3Index {
    pub resources: Option<Vec<NuGetResource>>,
}

/// One `{"@id", "@type"}` entry of the service index.
#[derive(Clone, Debug)]
pub struct NuGetResource {
    pub id: String,
    pub resource_type: String,
}

/// A V3 search response: `{"data": [ ... ]}`.
#[derive(Clone, Debug)]
pub struct QueryResult {
    pub data: Option<Vec<QueryResultPackage>>,
}

/// One `{"id", "version"}` entry of a search response.
#[derive(Clone, Debug)]
pub struct QueryResultPackage {
    pub id: String,
    pub version: String,
}

// ---------------------------------------------------------------------------
// Trusted JSON wrappers
// ---------------------------------------------------------------------------

/// What a service-index document holds, as a function of the text alone.
/// The levels mirror how the document can fail to be an index:
/// `None`: not JSON at all; `Some(None)`: JSON, but not an object with a
/// well-formed resource list; `Some(Some(None))`: an index whose `resources`
/// key is absent or null; `Some(Some(Some(rs)))`: the `(@id, @type)` pairs.
pub uninterp spec fn service_index_of(s: Seq<char>) -> Option<
    Option<Option<Seq<(Seq<char>, Seq<char>)>>>,
>;

/// What the `data` array of a V3 search response holds, as a function of the
/// text alone: `None` where the body is not a well-formed search response,
/// otherwise the `(id, version)` pairs (empty where `data` is absent or
/// null).
pub uninterp spec fn v3_search_data_of(s: Seq<char>) -> Option<Seq<(Seq<char>, Seq<char>)>>;

pub open spec fn string_pairs_view(v: Seq<(String, String)>) -> Seq<(Seq<char>, Seq<char>)> {
    v.map_values(|p: (String, String)| (p.0@, p.1@))
}

pub open spec fn opt_string_pairs_view(v: Option<Vec<(String, String)>>) -> Option<
    Seq<(Seq<char>, Seq<char>)>,
> {
    match v {
        Some(x) => Some(string_pairs_view(x@)),
        None => None,
    }
}

/// Relies on `serde_json::from_str` and the `Value` accessors (`as_object`,
/// `get`, `as_array`, `as_str`, `is_null`): reads a service-index document
/// into its `(@id, @type)` pairs, with the result levels of
/// `service_index_of`.
#[verifier::external_body]
fn parse_service_index(body: &str) -> (r: Option<Option<Option<Vec<(String, String)>>>>)
    ensures
        match r {
            None => service_index_of(body@) is None,
            Some(None) => service_index_of(body@) == Some(
                None::<Option<Seq<(Seq<char>, Seq<char>)>>>,
            ),
            Some(Some(inner)) => service_index_of(body@) == Some(
                Some(opt_string_pairs_view(inner)),
            ),
        },
{
    let v: serde_json::Value = match serde_json::from_str(body) { Ok(v) => v, Err(_) => return None };
    let obj = match v.as_object() { Some(o) => o, None => return Some(None) };
    let rs = match obj.get("resources") { Some(r) if !r.is_null() => r, _ => return Some(Some(None)) };
    let arr = match rs.as_array() { Some(a) => a, None => return Some(None) };
    let out: Option<Vec<(String, String)>> = arr.iter().map(
        |e| Some((e["@id"].as_str()?.to_string(), e["@type"].as_str()?.to_string())),
    ).collect();
    Some(out.map(Some))
}

/// Relies on `serde_json::from_str` and the `Value` accessors: reads the
/// `data` array of a search response into its `(id, version)` pairs, as
/// named by `v3_search_data_of`.
#[verifier::external_body]
fn parse_v3_search(body: &str) -> (r: Option<Vec<(String, String)>>)
    ensures
        match r {
            Some(pairs) => v3_search_data_of(body@) == Some(string_pairs_view(pairs@)),
            None => v3_search_data_of(body@) is None,
        },
{
    let v: serde_json::Value = match serde_json::from_str(body) { Ok(v) => v, Err(_) => return None };
    let obj = v.as_object()?;
    let data = match obj.get("data") { Some(d) if !d.is_null() => d, _ => return Some(Vec::new()) };
    let arr = data.as_array()?;
    arr.iter().map(
        |e| Some((e["id"].as_str()?.to_string(), e["version"].as_str()?.to_string())),
    ).collect::<Option<Vec<(String, String)>>>()
}

// ---------------------------------------------------------------------------
// Verified interpretation
// ---------------------------------------------------------------------------

/// The `(@id, @type)` view of an index's resource list.
pub open spec fn index_resources_view(idx: NuGetV3Index) -> Option<Seq<(Seq<char>, Seq<char>)>> {
    match idx.resources {
        Some(rs) => Some(rs@.map_values(|r: NuGetResource| (r.id@, r.resource_type@))),
        None => None,
    }
}

/// Read a service-index document.  `None`: the body is not JSON at all.
/// `Some(None)`: JSON, but not an index.  `Some(Some(idx))`: the index, its
/// resource list as the document gave it.
pub fn read_service_index(index_json: &str) -> (r: Option<Option<NuGetV3Index>>)
    ensures
        match r {
            None => service_index_of(index_json@) is None,
            Some(None) => service_index_of(index_json@) == Some(
                None::<Option<Seq<(Seq<char>, Seq<char>)>>>,
            ),
            Some(Some(idx)) => service_index_of(index_json@) == Some(
                Some(index_resources_view(idx)),
            ),
        },
{
    let parsed = parse_service_index(index_json);
    match parsed {
        None => None,
        Some(None) => Some(None),
        Some(Some(None)) => Some(Some(NuGetV3Index { resources: None })),
        Some(Some(Some(pairs))) => {
            let mut resources: Vec<NuGetResource> = Vec::new();
            let mut i: usize = 0;
            while i < pairs.len()
                invariant
                    i <= pairs@.len(),
                    resources@.map_values(|r: NuGetResource| (r.id@, r.resource_type@))
                        =~= string_pairs_view(pairs@.take(i as int)),
                decreases pairs@.len() - i,
            {
                let ghost before = resources@;
                resources.push(
                    NuGetResource { id: pairs[i].0.clone(), resource_type: pairs[i].1.clone() },
                );
                proof {
                    assert(resources@.map_values(|r: NuGetResource| (r.id@, r.resource_type@))
                        =~= before.map_values(|r: NuGetResource| (r.id@, r.resource_type@)).push(
                        (pairs@[i as int].0@, pairs@[i as int].1@),
                    ));
                    assert(string_pairs_view(pairs@.take(i as int + 1)) =~= string_pairs_view(
                        pairs@.take(i as int),
                    ).push((pairs@[i as int].0@, pairs@[i as int].1@)));
                }
                i += 1;
            }
            proof {
                assert(pairs@.take(pairs@.len() as int) =~= pairs@);
            }
            Some(Some(NuGetV3Index { resources: Some(resources) }))
        },
    }
}

/// The resources of `rs` whose type is exactly `rt`, in order.
pub open spec fn spec_matching_resources(rs: Seq<NuGetResource>, rt: Seq<char>) -> Seq<
    NuGetResource,
>
    decreases rs.len(),
{
    if rs.len() == 0 {
        Seq::<NuGetResource>::empty()
    } else if rs.last().resource_type@ == rt {
        spec_matching_resources(rs.drop_last(), rt) + seq![rs.last()]
    } else {
        spec_matching_resources(rs.drop_last(), rt)
    }
}

/// All resources of the feed's service index with exactly the given type,
/// or `None` where the feed has no service index or the index carries no
/// resource list.
pub fn get_resource(feed: &crate::roco::Feed, resource_type: &str) -> (r: Option<
    Vec<NuGetResource>,
>)
    ensures
        match r {
            None => match feed.service_index {
                None => true,
                Some(idx) => idx.resources is None,
            },
            Some(found) => match feed.service_index {
                Some(idx) => match idx.resources {
                    Some(rs) => found@ == spec_matching_resources(rs@, resource_type@),
                    None => false,
                },
                None => false,
            },
        },
{
    let idx = match &feed.service_index {
        Some(idx) => idx,
        None => {
            return None;
        },
    };
    let resources = match &idx.resources {
        Some(rs) => rs,
        None => {
            return None;
        },
    };
    let mut found: Vec<NuGetResource> = Vec::new();
    let mut i: usize = 0;
    while i < resources.len()
        invariant
            i <= resources@.len(),
            found@ =~= spec_matching_resources(resources@.take(i as int), resource_type@),
        decreases resources@.len() - i,
    {
        proof {
            assert(resources@.take(i as int + 1).drop_last() =~= resources@.take(i as int));
            assert(resources@.take(i as int + 1).last() == resources@[i as int]);
        }
        if crate::roco::strutil::str_eq(resources[i].resource_type.as_str(), resource_type) {
            found.push(
                NuGetResource {
                    id: resources[i].id.clone(),
                    resource_type: resources[i].resource_type.clone(),
                },
            );
            proof {
                assert(NuGetResource {
                    id: resources@[i as int].id,
                    resource_type: resources@[i as int].resource_type,
                } == resources@[i as int]);
            }
        }
        i += 1;
    }
    proof {
        assert(resources@.take(resources@.len() as int) =~= resources@);
    }
    Some(found)
}

/// Append the packages of one search-response body to the accumulator:
/// one package per `data` entry, neither pinned nor carrying dependencies.
/// Returns false (and appends nothing) where the body is not a well-formed
/// search response.
pub fn extract_packages(pkgs_res: &mut Vec<Package>, resp: &str) -> (ok: bool)
    ensures
        match v3_search_data_of(resp@) {
            Some(pairs) => {
                &&& ok
                &&& crate::roco::nuget2::pkg_pairs(final(pkgs_res)@)
                    == crate::roco::nuget2::pkg_pairs(old(pkgs_res)@) + pairs
                &&& final(pkgs_res)@.len() == old(pkgs_res)@.len() + pairs.len()
                &&& forall|i: int|
                    old(pkgs_res)@.len() <= i < final(pkgs_res)@.len() ==> {
                        &&& !(#[trigger] final(pkgs_res)@[i]).pinned
                        &&& final(pkgs_res)@[i].dependencies is None
                    }
                &&& forall|i: int|
                    0 <= i < old(pkgs_res)@.len() ==> #[trigger] final(pkgs_res)@[i] == old(
                        pkgs_res,
                    )@[i]
            },
            None => !ok && final(pkgs_res)@ == old(pkgs_res)@,
        },
{
    let parsed = parse_v3_search(resp);
    match parsed {
        None => false,
        Some(pairs) => {
            let ghost base = pkgs_res@;
            let mut i: usize = 0;
            while i < pairs.len()
                invariant
                    i <= pairs@.len(),
                    pkgs_res@.len() == base.len() + i,
                    crate::roco::nuget2::pkg_pairs(pkgs_res@) =~= crate::roco::nuget2::pkg_pairs(
                        base,
                    ) + string_pairs_view(pairs@.take(i as int)),
                    forall|j: int| base.len() <= j < pkgs_res@.len() ==> !(#[trigger] pkgs_res@[j]).pinned
                        && pkgs_res@[j].dependencies is None,
                    forall|j: int| 0 <= j < base.len() ==> #[trigger] pkgs_res@[j] == base[j],
                decreases pairs@.len() - i,
            {
                let ghost before = pkgs_res@;
                pkgs_res.push(
                    Package {
                        id: pairs[i].0.clone(),
                        version: pairs[i].1.clone(),
                        pinned: false,
                        dependencies: None,
                    },
                );
                proof {
                    assert(crate::roco::nuget2::pkg_pairs(pkgs_res@)
                        =~= crate::roco::nuget2::pkg_pairs(before).push(
                        (pairs@[i as int].0@, pairs@[i as int].1@),
                    ));
                    assert(string_pairs_view(pairs@.take(i as int + 1)) =~= string_pairs_view(
                        pairs@.take(i as int),
                    ).push((pairs@[i as int].0@, pairs@[i as int].1@)));
                }
                i += 1;
            }
            proof {
                assert(pairs@.take(pairs@.len() as int) =~= pairs@);
            }
            true
        },
    }
}

/// The query base of a V3 bulk request: `{service}/?prerelease={flag}&q=`.
pub fn v3_query_base(service_url: &str, prerelease: bool) -> (r: String)
    ensures
        r@ == service_url@ + "/?prerelease="@ + (if prerelease {
            "true"@
        } else {
            "false"@
        }) + "&q="@,
{
    let mut r = service_url.to_owned();
    r.append("/?prerelease=");
    if prerelease {
        r.append("true");
    } else {
        r.append("false");
    }
    r.append("&q=");
    r
}

/// The query fragment of one package: `packageid:{id}` (case preserved).
pub fn v3_package_fragment(pkg: &Package) -> (r: String)
    ensures
        r@ == "packageid:"@ + pkg.id@,
{
    let mut r = "packageid:".to_owned();
    r.append(pkg.id.as_str());
    r
}

/// The bulk-query engine configured for a V3 feed: `packageid:` fragments,
/// a space as the delimiter, no terminator, and a batch budget of 100.
pub fn v3_bulk_query(pkgs: &Vec<Package>, service_url: &str, prerelease: bool) -> (r: BulkQuery)
    ensures
        r.wf(),
        r.base@ == service_url@ + "/?prerelease="@ + (if prerelease {
            "true"@
        } else {
            "false"@
        }) + "&q="@,
        r.delim@ == " "@,
        r.terminator@ == ""@,
        r.fragments.deep_view() == pkgs@.map_values(|p: Package| "packageid:"@ + p.id@),
        r.max_batch_size == 100,
        r.max_url_len == 2047,
        r.cursor == 0,
        r.pending is None,
{
    let base = v3_query_base(service_url, prerelease);
    let mut fragments: Vec<String> = Vec::new();
    let mut i: usize = 0;
    while i < pkgs.len()
        invariant
            i <= pkgs@.len(),
            fragments.deep_view() =~= pkgs@.take(i as int).map_values(
                |p: Package| "packageid:"@ + p.id@,
            ),
        decreases pkgs@.len() - i,
    {
        fragments.push(v3_package_fragment(&pkgs[i]));
        proof {
            assert(pkgs@.take(i as int + 1).drop_last() =~= pkgs@.take(i as int));
            assert(pkgs@.take(i as int + 1).last() == pkgs@[i as int]);
            assert(pkgs@.take(i as int + 1).map_values(|p: Package| "packageid:"@ + p.id@)
                =~= pkgs@.take(i as int).map_values(|p: Package| "packageid:"@ + p.id@).push(
                "packageid:"@ + pkgs@[i as int].id@,
            ));
        }
        i += 1;
    }
    proof {
        assert(pkgs@.take(pkgs@.len() as int) =~= pkgs@);
    }
    BulkQuery::new(base, " ".to_owned(), "".to_owned(), fragments, 100)
}

} // verus!
