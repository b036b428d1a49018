//! The NuGet V2 (OData) adapter: query construction for the filterable
//! `Packages` collection, the pagination probe, and extraction of package
//! ids and versions from the Atom/OData XML a feed answers with.

use vstd::prelude::*;

verus! {

use vstd::string::StringExecFns;
use crate::roco::Package;
use crate::roco::bulk::BulkQuery;
use crate::roco::strutil::{lower_of, lowercase, spec_count_matches, count_matches, spec_u64_string,
    u64_to_string, str_eq};
use crate::roco::xml::{xml_events_of, xml_events, events_view, XML_START, XML_END, XML_TEXT};

/// Where the OData scanner stands in the event stream.
#[derive(Clone, Copy, PartialEq, Eq, Structural, Debug)]
pub enum ODataParserState {
    LookingForEntry,
    InEntry,
    InEntryId,
    InEntryVersion,
}

proof fn lemma_odata_tags_distinct()
    ensures
        "entry"@ != "title"@,
        "title"@ != "d:Version"@,
        "entry"@ != "d:Version"@,
{
    reveal_strlit("entry");
    reveal_strlit("title");
    reveal_strlit("d:Version");
    assert("entry"@[0] == 'e');
    assert("title"@[0] == 't');
    assert("d:Version"@[0] == 'd');
}

/// Where the scanner stands after seeing event `e` in state `state`.
pub open spec fn odata_next_state(e: (u8, Seq<char>), state: ODataParserState) -> ODataParserState {
    if e.0 == XML_START && e.1 == "entry"@ {
        ODataParserState::InEntry
    } else if e.0 == XML_START && e.1 == "title"@ && state == ODataParserState::InEntry {
        ODataParserState::InEntryId
    } else if e.0 == XML_START && e.1 == "d:Version"@ && state == ODataParserState::InEntry {
        ODataParserState::InEntryVersion
    } else if e.0 == XML_END && e.1 == "entry"@ {
        ODataParserState::LookingForEntry
    } else if e.0 == XML_END && e.1 == "title"@ && state == ODataParserState::InEntryId {
        ODataParserState::InEntry
    } else if e.0 == XML_END && e.1 == "d:Version"@ && state == ODataParserState::InEntryVersion {
        ODataParserState::InEntry
    } else {
        state
    }
}

/// The id accumulator after event `e`: text inside `<title>` replaces it.
pub open spec fn odata_next_name(e: (u8, Seq<char>), state: ODataParserState, name: Seq<char>)
    -> Seq<char> {
    if e.0 == XML_TEXT && state == ODataParserState::InEntryId {
        e.1
    } else {
        name
    }
}

/// The version accumulator after event `e`: text inside `<d:Version>`
/// replaces it.
pub open spec fn odata_next_version(
    e: (u8, Seq<char>),
    state: ODataParserState,
    version: Seq<char>,
) -> Seq<char> {
    if e.0 == XML_TEXT && state == ODataParserState::InEntryVersion {
        e.1
    } else {
        version
    }
}

/// Does event `e` close an entry and emit the accumulated pair?
pub open spec fn odata_emits(e: (u8, Seq<char>)) -> bool {
    e.0 == XML_END && e.1 == "entry"@
}

/// The (id, version) pairs the scanner emits from an event stream, one pair
/// per `</entry>`, reading the innermost `<title>` text as the id and the
/// `<d:Version>` text as the version, ignoring all other structure.  The
/// `name` and `version` accumulators hold the text last seen.
pub open spec fn spec_odata_pairs(
    evs: Seq<(u8, Seq<char>)>,
    state: ODataParserState,
    name: Seq<char>,
    version: Seq<char>,
) -> Seq<(Seq<char>, Seq<char>)>
    decreases evs.len(),
{
    if evs.len() == 0 {
        Seq::<(Seq<char>, Seq<char>)>::empty()
    } else {
        let e = evs[0];
        let tail = spec_odata_pairs(
            evs.drop_first(),
            odata_next_state(e, state),
            odata_next_name(e, state, name),
            odata_next_version(e, state, version),
        );
        if odata_emits(e) {
            seq![(name, version)] + tail
        } else {
            tail
        }
    }
}

/// The (id, version) view of a package list.
pub open spec fn pkg_pairs(pkgs: Seq<Package>) -> Seq<(Seq<char>, Seq<char>)> {
    pkgs.map_values(|p: Package| (p.id@, p.version@))
}

/// Extract one package per `<entry>` of an OData response: `<title>` as the
/// id, `<d:Version>` as the version, everything else ignored.
pub fn get_packages_from_odata(odata_xml: &str) -> (r: Vec<Package>)
    ensures
        pkg_pairs(r@) == spec_odata_pairs(
            xml_events_of(odata_xml@),
            ODataParserState::LookingForEntry,
            Seq::<char>::empty(),
            Seq::<char>::empty(),
        ),
        forall|i: int| 0 <= i < r@.len() ==> !(#[trigger] r@[i]).pinned && r@[i].dependencies
            is None,
{
    let events = xml_events(odata_xml);
    let ghost evs = xml_events_of(odata_xml@);
    let mut packages: Vec<Package> = Vec::new();
    let mut pkg_name = String::new();
    let mut pkg_version = String::new();
    let mut state = ODataParserState::LookingForEntry;
    let mut i: usize = 0;
    proof {
        assert(evs.skip(0) =~= evs);
        assert(pkg_pairs(packages@) =~= Seq::<(Seq<char>, Seq<char>)>::empty());
    }
    while i < events.len()
        invariant
            i <= events@.len(),
            events_view(events@) == evs,
            forall|j: int| 0 <= j < packages@.len() ==> !(#[trigger] packages@[j]).pinned
                && packages@[j].dependencies is None,
            pkg_pairs(packages@) + spec_odata_pairs(evs.skip(i as int), state, pkg_name@,
                pkg_version@,
            ) =~= spec_odata_pairs(
                evs,
                ODataParserState::LookingForEntry,
                Seq::<char>::empty(),
                Seq::<char>::empty(),
            ),
        decreases events@.len() - i,
    {
        let ghost gi = i as int;
        let ghost gstate = state;
        let ghost gname = pkg_name@;
        let ghost gver = pkg_version@;
        let ghost gpairs = pkg_pairs(packages@);
        let ghost e = evs[gi];
        proof {
            assert(events_view(events@)[gi] == (events@[gi].0, events@[gi].1@));
            assert(evs.skip(gi)[0] == e);
            assert(evs.skip(gi).drop_first() =~= evs.skip(gi + 1));
        }
        let kind = events[i].0;
        if kind == XML_START {
            if str_eq(events[i].1.as_str(), "entry") {
                state = ODataParserState::InEntry;
            } else if str_eq(events[i].1.as_str(), "title") {
                if state == ODataParserState::InEntry {
                    state = ODataParserState::InEntryId;
                }
            } else if str_eq(events[i].1.as_str(), "d:Version") {
                if state == ODataParserState::InEntry {
                    state = ODataParserState::InEntryVersion;
                }
            }
        } else if kind == XML_TEXT {
            if state == ODataParserState::InEntryId {
                pkg_name = events[i].1.clone();
            } else if state == ODataParserState::InEntryVersion {
                pkg_version = events[i].1.clone();
            }
        } else if kind == XML_END {
            if str_eq(events[i].1.as_str(), "entry") {
                packages.push(
                    Package {
                        id: pkg_name.clone(),
                        version: pkg_version.clone(),
                        pinned: false,
                        dependencies: None,
                    },
                );
                state = ODataParserState::LookingForEntry;
            } else if str_eq(events[i].1.as_str(), "title") {
                if state == ODataParserState::InEntryId {
                    state = ODataParserState::InEntry;
                }
            } else if str_eq(events[i].1.as_str(), "d:Version") {
                if state == ODataParserState::InEntryVersion {
                    state = ODataParserState::InEntry;
                }
            }
        }
        proof {
            lemma_odata_tags_distinct();
            assert(state == odata_next_state(e, gstate));
            assert(pkg_name@ == odata_next_name(e, gstate, gname));
            assert(pkg_version@ == odata_next_version(e, gstate, gver));
            let tail = spec_odata_pairs(evs.skip(gi + 1), state, pkg_name@, pkg_version@);
            assert(spec_odata_pairs(evs.skip(gi), gstate, gname, gver) == if odata_emits(e) {
                seq![(gname, gver)] + tail
            } else {
                tail
            });
            if odata_emits(e) {
                assert(pkg_pairs(packages@) =~= gpairs + seq![(gname, gver)]);
                assert((gpairs + seq![(gname, gver)]) + tail =~= gpairs + (seq![(gname, gver)]
                    + tail));
            } else {
                assert(pkg_pairs(packages@) == gpairs);
            }
        }
        i += 1;
    }
    proof {
        assert(evs.skip(events@.len() as int).len() == 0);
    }
    packages
}

/// The query base of a V2 bulk request:
/// `{url}/Packages?$filter={latest-filter} and (`.
pub fn v2_query_base(feed_url: &str, prerelease: bool) -> (r: String)
    ensures
        r@ == feed_url@ + "/Packages?$filter="@ + (if prerelease {
            "IsAbsoluteLatestVersion"@
        } else {
            "IsLatestVersion"@
        }) + " and ("@,
{
    let mut r = feed_url.to_owned();
    r.append("/Packages?$filter=");
    if prerelease {
        r.append("IsAbsoluteLatestVersion");
    } else {
        r.append("IsLatestVersion");
    }
    r.append(" and (");
    r
}

/// The query fragment of one package: `(tolower(Id) eq '{lowercased id}')`.
pub fn v2_package_fragment(pkg: &Package) -> (r: String)
    ensures
        r@ == "(tolower(Id) eq '"@ + lower_of(pkg.id@) + "')"@,
{
    let mut r = "(tolower(Id) eq '".to_owned();
    let lower = lowercase(pkg.id.as_str());
    r.append(lower.as_str());
    r.append("')");
    r
}

/// The bulk-query engine configured for a V2 feed: per-package fragments
/// over the lowercased ids, ` or ` as the delimiter, `)` as the terminator.
pub fn v2_bulk_query(pkgs: &Vec<Package>, feed_url: &str, prerelease: bool, max_batch_size: u32)
    -> (r: BulkQuery)
    ensures
        r.wf(),
        r.base@ == feed_url@ + "/Packages?$filter="@ + (if prerelease {
            "IsAbsoluteLatestVersion"@
        } else {
            "IsLatestVersion"@
        }) + " and ("@,
        r.delim@ == " or "@,
        r.terminator@ == ")"@,
        r.fragments.deep_view() == pkgs@.map_values(
            |p: Package| "(tolower(Id) eq '"@ + lower_of(p.id@) + "')"@,
        ),
        r.max_batch_size == max_batch_size,
        r.max_url_len == 2047,
        r.cursor == 0,
        r.pending is None,
{
    let base = v2_query_base(feed_url, prerelease);
    let mut fragments: Vec<String> = Vec::new();
    let mut i: usize = 0;
    while i < pkgs.len()
        invariant
            i <= pkgs@.len(),
            fragments.deep_view() =~= pkgs@.take(i as int).map_values(
                |p: Package| "(tolower(Id) eq '"@ + lower_of(p.id@) + "')"@,
            ),
        decreases pkgs@.len() - i,
    {
        fragments.push(v2_package_fragment(&pkgs[i]));
        proof {
            assert(pkgs@.take(i as int + 1).drop_last() =~= pkgs@.take(i as int));
            assert(pkgs@.take(i as int + 1).last() == pkgs@[i as int]);
            assert(pkgs@.take(i as int + 1).map_values(
                |p: Package| "(tolower(Id) eq '"@ + lower_of(p.id@) + "')"@,
            ) =~= pkgs@.take(i as int).map_values(
                |p: Package| "(tolower(Id) eq '"@ + lower_of(p.id@) + "')"@,
            ).push("(tolower(Id) eq '"@ + lower_of(pkgs@[i as int].id@) + "')"@));
        }
        i += 1;
    }
    proof {
        assert(pkgs@.take(pkgs@.len() as int) =~= pkgs@);
    }
    BulkQuery::new(base, " or ".to_owned(), ")".to_owned(), fragments, max_batch_size)
}

/// The URL of one pagination-probe page:
/// `{url}/Packages()?{latest-filter}&$top={n}&$skip={m}`, with `$top`
/// omitted when `batch_size` is zero.
pub fn v2_delta_url(feed_url: &str, batch_size: u32, batch_offset: u32, prerelease: bool) -> (r:
    String)
    ensures
        r@ == feed_url@ + "/Packages()?"@ + (if prerelease {
            "$filter=IsAbsoluteLatestVersion"@
        } else {
            "$filter=IsLatestVersion"@
        }) + (if batch_size == 0 {
            "&$skip="@ + spec_u64_string(batch_offset as int)
        } else {
            "&$top="@ + spec_u64_string(batch_size as int) + "&$skip="@ + spec_u64_string(
                batch_offset as int,
            )
        }),
{
    let mut r = feed_url.to_owned();
    r.append("/Packages()?");
    if prerelease {
        r.append("$filter=IsAbsoluteLatestVersion");
    } else {
        r.append("$filter=IsLatestVersion");
    }
    if batch_size == 0 {
        r.append("&$skip=");
        let off = u64_to_string(batch_offset as u64);
        r.append(off.as_str());
    } else {
        r.append("&$top=");
        let top = u64_to_string(batch_size as u64);
        r.append(top.as_str());
        r.append("&$skip=");
        let off = u64_to_string(batch_offset as u64);
        r.append(off.as_str());
    }
    r
}

/// How many entries one probe page carried: the number of `</entry>` closers
/// in the body.  That count seeds the batch size for feeds with pagination.
pub fn v2_probe_batch_size(body: &str) -> (r: u32)
    requires
        body@.len() <= u32::MAX,
    ensures
        r == spec_count_matches(body@, "</entry>"@),
{
    count_matches(body, "</entry>")
}

} // verus!
