//! The local-filesystem side of the library: deriving a package from a
//! `.nupkg` file name or from the nuspec manifest inside it, selecting the
//! archive files a local feed contributes, and rendering the package-list,
//! source-list and dependency-tree reports.

use vstd::prelude::*;

verus! {

use vstd::string::StrSliceExecFns;
use vstd::string::StringExecFns;
use crate::roco::{Dependency, NuspecTag, Package};
use crate::roco::strutil::{
    is_digit_char, lower_of, lowercase, spec_find_char, find_char, spec_ends_with, ends_with,
    spec_contains, str_contains, str_eq, spec_repeat, append_repeat, spec_i64_string,
    i64_to_string, spec_u64_string, u64_to_string,
};
use crate::roco::xml::{xml_events_of, xml_events, events_view, XML_START, XML_EMPTY, XML_TEXT};

// ---------------------------------------------------------------------------
// Version shapes in file names
// ---------------------------------------------------------------------------

/// The numeric core of a version in a file name: digits and dots, starting
/// with a digit, never two dots in a row (a trailing dot is allowed).
pub open spec fn is_version_core(s: Seq<char>) -> bool {
    &&& s.len() > 0
    &&& is_digit_char(s[0])
    &&& forall|k: int| 0 <= k < s.len() ==> is_digit_char(#[trigger] s[k]) || s[k] == '.'
    &&& forall|k: int| 0 <= k < s.len() - 1 ==> !(#[trigger] s[k] == '.' && s[k + 1] == '.')
}

fn is_version_core_str(s: &str) -> (r: bool)
    ensures
        r == is_version_core(s@),
{
    let n = s.unicode_len();
    if n == 0 {
        return false;
    }
    let c0 = s.get_char(0);
    if !('0' <= c0 && c0 <= '9') {
        return false;
    }
    let mut i: usize = 0;
    let mut prev_dot: bool = false;
    while i < n
        invariant
            i <= n,
            n == s@.len(),
            forall|k: int| 0 <= k < i ==> is_digit_char(#[trigger] s@[k]) || s@[k] == '.',
            forall|k: int| 0 <= k < i - 1 ==> !(#[trigger] s@[k] == '.' && s@[k + 1] == '.'),
            prev_dot == (i > 0 && s@[i - 1] == '.'),
        decreases n - i,
    {
        let c = s.get_char(i);
        if c == '.' {
            if prev_dot {
                return false;
            }
            prev_dot = true;
        } else if '0' <= c && c <= '9' {
            prev_dot = false;
        } else {
            return false;
        }
        i += 1;
    }
    true
}

/// The number of digit runs in a numeric version core: how many `\d+` blocks
/// the pattern `(\d+\.?)+` consumes.
pub open spec fn digit_runs(s: Seq<char>) -> int
    decreases s.len(),
{
    if s.len() == 0 {
        0
    } else {
        digit_runs(s.drop_last()) + if is_digit_char(s.last()) && (s.len() == 1 || s[s.len() - 2]
            == '.') {
            1int
        } else {
            0int
        }
    }
}

fn count_digit_runs(s: &str) -> (r: usize)
    ensures
        r == digit_runs(s@),
{
    let n = s.unicode_len();
    let mut i: usize = 0;
    let mut count: usize = 0;
    proof {
        assert(s@.take(0) =~= Seq::<char>::empty());
    }
    while i < n
        invariant
            i <= n,
            n == s@.len(),
            count == digit_runs(s@.take(i as int)),
            count <= i,
        decreases n - i,
    {
        let c = s.get_char(i);
        let run_start: bool = ('0' <= c && c <= '9') && (i == 0 || s.get_char(i - 1) == '.');
        proof {
            assert(s@.take(i as int + 1).drop_last() =~= s@.take(i as int));
            assert(s@.take(i as int + 1).last() == s@[i as int]);
        }
        if run_start {
            count += 1;
        }
        i += 1;
    }
    proof {
        assert(s@.take(n as int) =~= s@);
    }
    count
}

/// The version pattern of a `.nupkg` file name: a numeric core, optionally
/// followed by `-` and a non-empty prerelease tail.
pub open spec fn spec_version_pattern(v: Seq<char>) -> bool {
    let i = spec_find_char(v, '-');
    if i < 0 {
        is_version_core(v)
    } else {
        i + 1 < v.len() && is_version_core(v.take(i))
    }
}

fn version_pattern(v: &str) -> (r: bool)
    ensures
        r == spec_version_pattern(v@),
{
    let n = v.unicode_len();
    match find_char(v, '-') {
        None => is_version_core_str(v),
        Some(i) => {
            if i + 1 >= n {
                false
            } else {
                let head = v.substring_char(0, i);
                proof {
                    assert(head@ =~= v@.take(i as int));
                }
                is_version_core_str(head)
            }
        },
    }
}

/// A version is a prerelease when its numeric core (of at most four digit
/// runs) is followed by `-` and at least one more character — the loose
/// pattern the local feed uses to drop prereleases unless asked for them.
pub open spec fn spec_is_prerelease(v: Seq<char>) -> bool {
    let i = spec_find_char(v, '-');
    &&& i >= 1
    &&& i + 1 < v.len()
    &&& is_version_core(v.take(i))
    &&& digit_runs(v.take(i)) <= 4
}

pub fn is_prerelease_version(v: &str) -> (r: bool)
    ensures
        r == spec_is_prerelease(v@),
{
    let n = v.unicode_len();
    match find_char(v, '-') {
        None => false,
        Some(i) => {
            if i == 0 || i + 1 >= n {
                false
            } else {
                let head = v.substring_char(0, i);
                proof {
                    assert(head@ =~= v@.take(i as int));
                }
                if !is_version_core_str(head) {
                    false
                } else {
                    count_digit_runs(head) <= 4
                }
            }
        },
    }
}

// ---------------------------------------------------------------------------
// Package from a `.nupkg` file name
// ---------------------------------------------------------------------------

/// The first position `>= i` in `core` holding a `.` whose suffix matches
/// the version pattern, or `-1`: where the lazily-matched id of the file
/// name `id.version.nupkg` ends.
pub open spec fn spec_first_version_split(core: Seq<char>, i: int) -> int
    decreases core.len() - i,
{
    if i < 0 || i >= core.len() {
        -1
    } else if core[i] == '.' && spec_version_pattern(core.skip(i + 1)) {
        i
    } else {
        spec_first_version_split(core, i + 1)
    }
}

/// What a `.nupkg` file name parses to: the shortest non-empty id such that
/// the name reads `id.version.nupkg` with `version` matching the version
/// pattern, or nothing.
pub open spec fn spec_nupkg_parse(name: Seq<char>) -> Option<(Seq<char>, Seq<char>)> {
    if spec_ends_with(name, ".nupkg"@) {
        let core = name.take(name.len() - 6);
        let i = spec_first_version_split(core, 1);
        if i >= 0 {
            Some((core.take(i), core.skip(i + 1)))
        } else {
            None
        }
    } else {
        None
    }
}

/// Derive a package from a `.nupkg` file name of the shape
/// `name.major[.minor[.build[.revision]]][-prerelease].nupkg`.
pub fn get_package_from_nupkg_filename(filename: &str) -> (r: Option<Package>)
    ensures
        match spec_nupkg_parse(filename@) {
            Some(pair) => match r {
                Some(p) => {
                    &&& p.id@ == pair.0
                    &&& p.version@ == pair.1
                    &&& !p.pinned
                    &&& p.dependencies is None
                },
                None => false,
            },
            None => r is None,
        },
{
    proof {
        reveal_strlit(".nupkg");
    }
    if !ends_with(filename, ".nupkg") {
        return None;
    }
    let n = filename.unicode_len();
    assert(n >= 6);
    let core = filename.substring_char(0, n - 6);
    proof {
        assert(core@ =~= filename@.take(n - 6));
    }
    let core_n = core.unicode_len();
    let mut i: usize = 1;
    while i < core_n
        invariant
            1 <= i,
            core_n == core@.len(),
            spec_ends_with(filename@, ".nupkg"@),
            core@ == filename@.take(filename@.len() - 6),
            spec_first_version_split(core@, 1) == spec_first_version_split(core@, i as int),
        decreases core_n - i,
    {
        if core.get_char(i) == '.' {
            let suffix = core.substring_char(i + 1, core_n);
            proof {
                assert(suffix@ =~= core@.skip(i as int + 1));
            }
            if version_pattern(suffix) {
                assert(spec_first_version_split(core@, i as int) == i as int);
                let id = core.substring_char(0, i).to_owned();
                proof {
                    assert(id@ =~= core@.take(i as int));
                }
                return Some(
                    Package {
                        id,
                        version: suffix.to_owned(),
                        pinned: false,
                        dependencies: None,
                    },
                );
            }
        }
        i += 1;
    }
    assert(spec_first_version_split(core@, i as int) == -1);
    None
}

// ---------------------------------------------------------------------------
// Selecting the archives a local feed contributes
// ---------------------------------------------------------------------------

/// Does any requested package carry the same id, case-insensitively?
pub open spec fn spec_any_id_match(requested: Seq<Package>, id: Seq<char>) -> bool {
    exists|j: int|
        0 <= j < requested.len() && lower_of((#[trigger] requested[j]).id@) == lower_of(id)
}

/// Is this candidate kept: not a prerelease (unless prereleases were asked
/// for), and its id among the requested ones?
pub open spec fn spec_keep_nupkg(c: Package, requested: Seq<Package>, prerelease: bool) -> bool {
    &&& prerelease || !spec_is_prerelease(c.version@)
    &&& spec_any_id_match(requested, c.id@)
}

/// The candidates that survive the prerelease filter and the id match, in
/// order.
pub open spec fn spec_select_nupkgs(
    cands: Seq<Package>,
    requested: Seq<Package>,
    prerelease: bool,
) -> Seq<Package>
    decreases cands.len(),
{
    if cands.len() == 0 {
        Seq::<Package>::empty()
    } else {
        (if spec_keep_nupkg(cands[0], requested, prerelease) {
            seq![cands[0]]
        } else {
            Seq::<Package>::empty()
        }) + spec_select_nupkgs(cands.drop_first(), requested, prerelease)
    }
}

fn any_id_match(requested: &Vec<Package>, id: &str) -> (r: bool)
    ensures
        r == spec_any_id_match(requested@, id@),
{
    let target = lowercase(id);
    let mut j: usize = 0;
    while j < requested.len()
        invariant
            j <= requested@.len(),
            target@ == lower_of(id@),
            forall|k: int| 0 <= k < j ==> lower_of((#[trigger] requested@[k]).id@) != lower_of(id@),
        decreases requested@.len() - j,
    {
        let cand = lowercase(requested[j].id.as_str());
        if str_eq(cand.as_str(), target.as_str()) {
            assert(lower_of(requested@[j as int].id@) == lower_of(id@));
            return true;
        }
        j += 1;
    }
    false
}

/// Keep the candidate packages of a local feed that the request asks for:
/// prereleases only when requested, and only ids among the requested ones.
pub fn select_nupkg_packages(
    candidates: Vec<Package>,
    requested: &Vec<Package>,
    prerelease: bool,
) -> (r: Vec<Package>)
    ensures
        r@ == spec_select_nupkgs(candidates@, requested@, prerelease),
{
    let ghost orig = candidates@;
    let mut cands = candidates;
    let mut out: Vec<Package> = Vec::new();
    proof {
        assert(out@ + spec_select_nupkgs(cands@, requested@, prerelease) =~= spec_select_nupkgs(
            orig,
            requested@,
            prerelease,
        ));
    }
    while cands.len() > 0
        invariant
            out@ + spec_select_nupkgs(cands@, requested@, prerelease) == spec_select_nupkgs(
                orig,
                requested@,
                prerelease,
            ),
        decreases cands@.len(),
    {
        let ghost before = cands@;
        let c = cands.remove(0);
        proof {
            assert(cands@ =~= before.drop_first());
            assert(before[0] == c);
        }
        let keep_version = prerelease || !is_prerelease_version(c.version.as_str());
        if keep_version && any_id_match(requested, c.id.as_str()) {
            let ghost out_before = out@;
            let ghost tail = spec_select_nupkgs(cands@, requested@, prerelease);
            out.push(c);
            proof {
                assert(out@ =~= out_before + seq![before[0]]);
                assert((out_before + seq![before[0]]) + tail =~= out_before + (seq![before[0]]
                    + tail));
            }
        }
    }
    proof {
        assert(spec_select_nupkgs(cands@, requested@, prerelease)
            =~= Seq::<Package>::empty());
        assert(out@ + Seq::<Package>::empty() =~= out@);
    }
    out
}

// ---------------------------------------------------------------------------
// Package from nuspec text
// ---------------------------------------------------------------------------

proof fn lemma_nuspec_tags_distinct()
    ensures
        "id"@ != "version"@,
        "id"@ != "dependency"@,
        "version"@ != "dependency"@,
{
    reveal_strlit("id");
    reveal_strlit("version");
    reveal_strlit("dependency");
    assert("id"@.len() == 2);
    assert("version"@.len() == 7);
    assert("dependency"@.len() == 10);
}

/// The tag the nuspec scanner is inside of after event `e`: an opening
/// `<id>` or `<version>` starts capture, any other opening tag (or a
/// self-closing `<dependency/>`) stops it.
pub open spec fn nuspec_next_tag(e: (u8, Seq<char>), tag: NuspecTag) -> NuspecTag {
    if e.0 == XML_START && e.1 == "id"@ {
        NuspecTag::Id
    } else if e.0 == XML_START && e.1 == "version"@ {
        NuspecTag::Version
    } else if e.0 == XML_START {
        NuspecTag::Null
    } else if e.0 == XML_EMPTY && e.1 == "dependency"@ {
        NuspecTag::Null
    } else {
        tag
    }
}

pub open spec fn nuspec_next_id(e: (u8, Seq<char>), tag: NuspecTag, id: Seq<char>) -> Seq<char> {
    if e.0 == XML_TEXT && tag == NuspecTag::Id {
        e.1
    } else {
        id
    }
}

pub open spec fn nuspec_next_version(e: (u8, Seq<char>), tag: NuspecTag, version: Seq<char>)
    -> Seq<char> {
    if e.0 == XML_TEXT && tag == NuspecTag::Version {
        e.1
    } else {
        version
    }
}

/// The (id, version) a nuspec event stream yields: the text last seen under
/// `<id>` and under `<version>`.
pub open spec fn spec_nuspec_result(
    evs: Seq<(u8, Seq<char>)>,
    tag: NuspecTag,
    id: Seq<char>,
    version: Seq<char>,
) -> (Seq<char>, Seq<char>)
    decreases evs.len(),
{
    if evs.len() == 0 {
        (id, version)
    } else {
        let e = evs[0];
        spec_nuspec_result(
            evs.drop_first(),
            nuspec_next_tag(e, tag),
            nuspec_next_id(e, tag, id),
            nuspec_next_version(e, tag, version),
        )
    }
}

/// Parse the id and version out of nuspec manifest text.  Dependency
/// entries are the inventory collaborator's concern and are not read here.
pub fn get_package_from_nuspec_text(nuspec_content: &str) -> (r: Package)
    ensures
        (r.id@, r.version@) == spec_nuspec_result(
            xml_events_of(nuspec_content@),
            NuspecTag::Null,
            Seq::<char>::empty(),
            Seq::<char>::empty(),
        ),
        !r.pinned,
        r.dependencies is None,
{
    let events = xml_events(nuspec_content);
    let ghost evs = xml_events_of(nuspec_content@);
    let mut pkg_name = String::new();
    let mut pkg_version = String::new();
    let mut tag = NuspecTag::Null;
    let mut i: usize = 0;
    proof {
        assert(evs.skip(0) =~= evs);
    }
    while i < events.len()
        invariant
            i <= events@.len(),
            events_view(events@) == evs,
            spec_nuspec_result(evs.skip(i as int), tag, pkg_name@, pkg_version@)
                == spec_nuspec_result(
                evs,
                NuspecTag::Null,
                Seq::<char>::empty(),
                Seq::<char>::empty(),
            ),
        decreases events@.len() - i,
    {
        let ghost gi = i as int;
        let ghost gtag = tag;
        let ghost gid = pkg_name@;
        let ghost gver = pkg_version@;
        let ghost e = evs[gi];
        proof {
            assert(events_view(events@)[gi] == (events@[gi].0, events@[gi].1@));
            assert(evs.skip(gi)[0] == e);
            assert(evs.skip(gi).drop_first() =~= evs.skip(gi + 1));
        }
        let kind = events[i].0;
        if kind == XML_START {
            if str_eq(events[i].1.as_str(), "id") {
                tag = NuspecTag::Id;
            } else if str_eq(events[i].1.as_str(), "version") {
                tag = NuspecTag::Version;
            } else {
                tag = NuspecTag::Null;
            }
        } else if kind == XML_EMPTY {
            if str_eq(events[i].1.as_str(), "dependency") {
                tag = NuspecTag::Null;
            }
        } else if kind == XML_TEXT {
            if tag == NuspecTag::Id {
                pkg_name = events[i].1.clone();
            } else if tag == NuspecTag::Version {
                pkg_version = events[i].1.clone();
            }
        }
        proof {
            lemma_nuspec_tags_distinct();
            assert(tag == nuspec_next_tag(e, gtag));
            assert(pkg_name@ == nuspec_next_id(e, gtag, gid));
            assert(pkg_version@ == nuspec_next_version(e, gtag, gver));
        }
        i += 1;
    }
    proof {
        assert(evs.skip(events@.len() as int).len() == 0);
    }
    Package { id: pkg_name, version: pkg_version, pinned: false, dependencies: None }
}

// ---------------------------------------------------------------------------
// Package list text
// ---------------------------------------------------------------------------

/// Is this package listed under the (already lowercased) filter?  `all`
/// lists everything; any other filter must occur in the id as given.
pub open spec fn spec_pkg_included(p: Package, flt: Seq<char>) -> bool {
    flt == "all"@ || spec_contains(p.id@, flt)
}

/// The listing of the first `i` packages: one `id{sep}version` line per
/// included package, with a line break after every line that is not the
/// last package's.
pub open spec fn spec_pkg_list_upto(
    pkgs: Seq<Package>,
    i: int,
    flt: Seq<char>,
    sep: Seq<char>,
) -> Seq<char>
    decreases i,
{
    if i <= 0 {
        Seq::<char>::empty()
    } else {
        spec_pkg_list_upto(pkgs, i - 1, flt, sep) + if spec_pkg_included(pkgs[i - 1], flt) {
            pkgs[i - 1].id@ + sep + pkgs[i - 1].version@ + if i < pkgs.len() {
                "\r\n"@
            } else {
                Seq::<char>::empty()
            }
        } else {
            Seq::<char>::empty()
        }
    }
}

/// One `id|version` (or `id version`) line per package whose id the filter
/// admits.
pub fn get_package_list_text(filter: &str, packages: Vec<Package>, limitoutput: bool) -> (r:
    String)
    ensures
        r@ == spec_pkg_list_upto(
            packages@,
            packages@.len() as int,
            lower_of(filter@),
            if limitoutput {
                "|"@
            } else {
                " "@
            },
        ),
{
    let flt = lowercase(filter);
    let sep: &str = if limitoutput {
        "|"
    } else {
        " "
    };
    let mut res = String::new();
    let mut i: usize = 0;
    let n = packages.len();
    proof {
        assert(res@ =~= spec_pkg_list_upto(packages@, 0, lower_of(filter@), sep@));
    }
    while i < n
        invariant
            i <= n,
            n == packages@.len(),
            flt@ == lower_of(filter@),
            sep@ == if limitoutput {
                "|"@
            } else {
                " "@
            },
            res@ == spec_pkg_list_upto(packages@, i as int, lower_of(filter@), sep@),
        decreases n - i,
    {
        let included = str_eq(flt.as_str(), "all") || str_contains(
            packages[i].id.as_str(),
            flt.as_str(),
        );
        let ghost before = res@;
        if included {
            res.append(packages[i].id.as_str());
            res.append(sep);
            res.append(packages[i].version.as_str());
            if i + 1 < n {
                res.append("\r\n");
            }
        }
        proof {
            assert(res@ =~= spec_pkg_list_upto(packages@, i as int + 1, lower_of(filter@), sep@));
        }
        i += 1;
    }
    res
}

/// The local-package listing, with a trailing count outside limited output.
pub fn get_local_packages_text(packages: Vec<Package>, filter: &str, limitoutput: bool) -> (r:
    String)
    ensures
        r@ == spec_pkg_list_upto(
            packages@,
            packages@.len() as int,
            lower_of(filter@),
            if limitoutput {
                "|"@
            } else {
                " "@
            },
        ) + if limitoutput {
            Seq::<char>::empty()
        } else {
            "\r\n"@ + spec_u64_string(packages@.len() as int) + " packages installed."@
        },
{
    let num_packages = packages.len();
    let mut res = get_package_list_text(filter, packages, limitoutput);
    if !limitoutput {
        res.append("\r\n");
        let count = u64_to_string(num_packages as u64);
        res.append(count.as_str());
        res.append(" packages installed.");
    }
    proof {
        if limitoutput {
            assert(res@ =~= res@ + Seq::<char>::empty());
        }
    }
    res
}

/// The lib-bad listing: every package, with a trailing count outside
/// limited output.
pub fn get_local_bad_packages_text(packages: Vec<Package>, limitoutput: bool) -> (r: String)
    ensures
        r@ == spec_pkg_list_upto(
            packages@,
            packages@.len() as int,
            lower_of("all"@),
            if limitoutput {
                "|"@
            } else {
                " "@
            },
        ) + if limitoutput {
            Seq::<char>::empty()
        } else {
            "\r\n"@ + spec_u64_string(packages@.len() as int) + " packages in lib-bad."@
        },
{
    let num_packages = packages.len();
    let mut res = get_package_list_text("all", packages, limitoutput);
    if !limitoutput {
        res.append("\r\n");
        let count = u64_to_string(num_packages as u64);
        res.append(count.as_str());
        res.append(" packages in lib-bad.");
    }
    proof {
        if limitoutput {
            assert(res@ =~= res@ + Seq::<char>::empty());
        }
    }
    res
}

// ---------------------------------------------------------------------------
// Source list text
// ---------------------------------------------------------------------------

// ---------------------------------------------------------------------------
// Dependency tree text
// ---------------------------------------------------------------------------

/// The key/value view of the id-to-position lookup list.
pub open spec fn index_view(v: Seq<(String, usize)>) -> Seq<(Seq<char>, int)> {
    v.map_values(|e: (String, usize)| (e.0@, e.1 as int))
}

pub open spec fn index_in_range(entries: Seq<(Seq<char>, int)>, n: int) -> bool {
    forall|k: int| 0 <= k < entries.len() ==> 0 <= (#[trigger] entries[k]).1 < n
}

/// The value stored under `key`, or `-1`.  Keys are unique by construction,
/// so the first match is the only one.
pub open spec fn spec_index_lookup(entries: Seq<(Seq<char>, int)>, key: Seq<char>) -> int
    decreases entries.len(),
{
    if entries.len() == 0 {
        -1
    } else if entries[0].0 == key {
        entries[0].1
    } else {
        spec_index_lookup(entries.drop_first(), key)
    }
}

proof fn lemma_index_lookup_at(entries: Seq<(Seq<char>, int)>, key: Seq<char>, j: int)
    requires
        0 <= j < entries.len(),
        entries[j].0 == key,
        forall|k: int| 0 <= k < j ==> (#[trigger] entries[k]).0 != key,
    ensures
        spec_index_lookup(entries, key) == entries[j].1,
    decreases j,
{
    if j > 0 {
        let d = entries.drop_first();
        assert(d[j - 1] == entries[j]);
        assert(forall|k: int| 0 <= k < j - 1 ==> (#[trigger] d[k]).0 != key);
        lemma_index_lookup_at(d, key, j - 1);
    }
}

proof fn lemma_index_lookup_none(entries: Seq<(Seq<char>, int)>, key: Seq<char>)
    requires
        forall|k: int| 0 <= k < entries.len() ==> (#[trigger] entries[k]).0 != key,
    ensures
        spec_index_lookup(entries, key) == -1,
    decreases entries.len(),
{
    if entries.len() > 0 {
        let d = entries.drop_first();
        assert(forall|k: int| 0 <= k < d.len() ==> (#[trigger] d[k]).0 != key);
        lemma_index_lookup_none(d, key);
    }
}

pub proof fn lemma_index_lookup_in_range(entries: Seq<(Seq<char>, int)>, key: Seq<char>, n: int)
    requires
        index_in_range(entries, n),
    ensures
        spec_index_lookup(entries, key) == -1 || 0 <= spec_index_lookup(entries, key) < n,
    decreases entries.len(),
{
    if entries.len() > 0 && entries[0].0 != key {
        let d = entries.drop_first();
        assert(forall|k: int| 0 <= k < d.len() ==> d[k] == entries[k + 1]);
        lemma_index_lookup_in_range(d, key, n);
    }
}

/// Store `val` under `key`: replace the first entry with that key in place,
/// or append a new one (the overwrite of a map insert).
pub open spec fn spec_map_insert(entries: Seq<(Seq<char>, int)>, key: Seq<char>, val: int) -> Seq<
    (Seq<char>, int),
>
    decreases entries.len(),
{
    if entries.len() == 0 {
        seq![(key, val)]
    } else if entries[0].0 == key {
        seq![(key, val)] + entries.drop_first()
    } else {
        seq![entries[0]] + spec_map_insert(entries.drop_first(), key, val)
    }
}

proof fn lemma_map_insert_found(entries: Seq<(Seq<char>, int)>, key: Seq<char>, val: int, j: int)
    requires
        0 <= j < entries.len(),
        entries[j].0 == key,
        forall|k: int| 0 <= k < j ==> (#[trigger] entries[k]).0 != key,
    ensures
        spec_map_insert(entries, key, val) =~= entries.update(j, (key, val)),
    decreases j,
{
    if j > 0 {
        let d = entries.drop_first();
        assert(d[j - 1] == entries[j]);
        assert(forall|k: int| 0 <= k < j - 1 ==> (#[trigger] d[k]).0 != key);
        lemma_map_insert_found(d, key, val, j - 1);
    }
}

proof fn lemma_map_insert_missing(entries: Seq<(Seq<char>, int)>, key: Seq<char>, val: int)
    requires
        forall|k: int| 0 <= k < entries.len() ==> (#[trigger] entries[k]).0 != key,
    ensures
        spec_map_insert(entries, key, val) =~= entries.push((key, val)),
    decreases entries.len(),
{
    if entries.len() > 0 {
        let d = entries.drop_first();
        assert(forall|k: int| 0 <= k < d.len() ==> (#[trigger] d[k]).0 != key);
        lemma_map_insert_missing(d, key, val);
    }
}

/// The lookup list after indexing the first `i` packages by lowercased id,
/// position by position; a repeated id keeps the later position.
pub open spec fn spec_pkg_index(pkgs: Seq<Package>, i: int) -> Seq<(Seq<char>, int)>
    decreases i,
{
    if i <= 0 {
        Seq::<(Seq<char>, int)>::empty()
    } else {
        spec_map_insert(spec_pkg_index(pkgs, i - 1), lower_of(pkgs[i - 1].id@), i - 1)
    }
}

fn index_lookup(index: &Vec<(String, usize)>, key: &str) -> (r: Option<usize>)
    ensures
        match r {
            Some(v) => spec_index_lookup(index_view(index@), key@) == v as int,
            None => spec_index_lookup(index_view(index@), key@) == -1,
        },
{
    let mut j: usize = 0;
    while j < index.len()
        invariant
            j <= index@.len(),
            forall|k: int| 0 <= k < j ==> (#[trigger] index_view(index@)[k]).0 != key@,
        decreases index@.len() - j,
    {
        proof {
            assert(index_view(index@)[j as int] == (index@[j as int].0@, index@[j as int].1 as int));
        }
        if str_eq(index[j].0.as_str(), key) {
            proof {
                lemma_index_lookup_at(index_view(index@), key@, j as int);
            }
            return Some(index[j].1);
        }
        j += 1;
    }
    proof {
        lemma_index_lookup_none(index_view(index@), key@);
    }
    None
}

fn index_insert(index: &mut Vec<(String, usize)>, key: String, val: usize)
    ensures
        index_view(final(index)@) == spec_map_insert(index_view(old(index)@), key@, val as int),
{
    let mut j: usize = 0;
    while j < index.len()
        invariant
            j <= index@.len(),
            index@ == old(index)@,
            forall|k: int| 0 <= k < j ==> (#[trigger] index_view(index@)[k]).0 != key@,
        decreases index@.len() - j,
    {
        proof {
            assert(index_view(index@)[j as int] == (index@[j as int].0@, index@[j as int].1 as int));
        }
        if str_eq(index[j].0.as_str(), key.as_str()) {
            proof {
                lemma_map_insert_found(index_view(index@), key@, val as int, j as int);
            }
            let _ = index.remove(j);
            index.insert(j, (key, val));
            proof {
                assert(index_view(index@) =~= index_view(old(index)@).update(
                    j as int,
                    (key@, val as int),
                ));
            }
            return ;
        }
        j += 1;
    }
    proof {
        lemma_map_insert_missing(index_view(index@), key@, val as int);
    }
    index.push((key, val));
    proof {
        assert(index_view(index@) =~= index_view(old(index)@).push((key@, val as int)));
    }
}

pub open spec fn spec_dep_count(p: Package) -> int {
    match p.dependencies {
        Some(d) => d@.len() as int,
        None => 0,
    }
}

/// The subtree text of one package: its own `id (version)` line at the root
/// level, then one ` |`-indented line per dependency, recursing into
/// dependencies found among the local packages.  `fuel` bounds the depth so
/// that a dependency cycle cannot recurse forever; with fuel the number of
/// packages, no acyclic inventory is ever cut short.
pub open spec fn spec_dep_tree_pkg(
    level: int,
    p: Package,
    pkgs: Seq<Package>,
    entries: Seq<(Seq<char>, int)>,
    fuel: nat,
) -> Seq<char>
    decreases fuel, spec_dep_count(p) + 1,
{
    (if level == 1 {
        p.id@ + " ("@ + p.version@ + ")\r\n"@
    } else {
        Seq::<char>::empty()
    }) + (match p.dependencies {
        Some(deps) => spec_dep_children(deps@, level, pkgs, entries, fuel),
        None => Seq::<char>::empty(),
    })
}

/// The lines of a dependency list at one level, each followed by the
/// subtree of the dependency where it is a local package, or by an error
/// line where it is not.
pub open spec fn spec_dep_children(
    deps: Seq<Dependency>,
    level: int,
    pkgs: Seq<Package>,
    entries: Seq<(Seq<char>, int)>,
    fuel: nat,
) -> Seq<char>
    decreases fuel, deps.len(),
{
    if deps.len() == 0 {
        Seq::<char>::empty()
    } else {
        let d = deps[0];
        let vtext = if d.version@.len() == 0 {
            Seq::<char>::empty()
        } else {
            "("@ + d.version@ + ")"@
        };
        let head = spec_repeat(" |"@, level) + "-"@ + d.id@ + " "@ + vtext + "\r\n"@;
        let idx = spec_index_lookup(entries, lower_of(d.id@));
        let body = if idx >= 0 {
            if fuel == 0 || level >= usize::MAX {
                Seq::<char>::empty()
            } else {
                spec_dep_tree_pkg(level + 1, pkgs[idx], pkgs, entries, (fuel - 1) as nat)
            }
        } else {
            "ERROR: failed to locate "@ + d.id@ + " among local packages\r\n"@
        };
        head + body + spec_dep_children(deps.drop_first(), level, pkgs, entries, fuel)
    }
}

/// Render the subtree of one package against the id-indexed package list.
pub fn get_dependency_tree_pkg_text(
    level: usize,
    pkg: &Package,
    packages: &Vec<Package>,
    index: &Vec<(String, usize)>,
    fuel: usize,
) -> (r: String)
    requires
        index_in_range(index_view(index@), packages@.len() as int),
    ensures
        r@ == spec_dep_tree_pkg(
            level as int,
            *pkg,
            packages@,
            index_view(index@),
            fuel as nat,
        ),
    decreases fuel, spec_dep_count(*pkg) + 1,
{
    let mut res = String::new();
    if level == 1 {
        res.append(pkg.id.as_str());
        res.append(" (");
        res.append(pkg.version.as_str());
        res.append(")\r\n");
    }
    let ghost header = res@;
    proof {
        if level == 1 {
            assert(header =~= pkg.id@ + " ("@ + pkg.version@ + ")\r\n"@);
        }
    }
    match &pkg.dependencies {
        None => {
            proof {
                assert(res@ =~= header + Seq::<char>::empty());
            }
        },
        Some(deps) => {
            let ghost depsv = deps@;
            let ghost entries = index_view(index@);
            let mut j: usize = 0;
            proof {
                assert(depsv.skip(0) =~= depsv);
            }
            while j < deps.len()
                invariant
                    j <= depsv.len(),
                    depsv == deps@,
                    deps@ == pkg.dependencies->0@,
                    entries == index_view(index@),
                    index_in_range(entries, packages@.len() as int),
                    res@ + spec_dep_children(
                        depsv.skip(j as int),
                        level as int,
                        packages@,
                        entries,
                        fuel as nat,
                    ) == header + spec_dep_children(
                        depsv,
                        level as int,
                        packages@,
                        entries,
                        fuel as nat,
                    ),
                decreases fuel, spec_dep_count(*pkg), depsv.len() - j,
            {
                let ghost gres = res@;
                let ghost d = depsv[j as int];
                proof {
                    assert(depsv.skip(j as int)[0] == d);
                    assert(depsv.skip(j as int).drop_first() =~= depsv.skip(j as int + 1));
                }
                let mut line = String::new();
                append_repeat(&mut line, " |", level);
                line.append("-");
                line.append(deps[j].id.as_str());
                line.append(" ");
                if !deps[j].version.as_str().is_empty() {
                    line.append("(");
                    line.append(deps[j].version.as_str());
                    line.append(")");
                }
                line.append("\r\n");
                res.append(line.as_str());
                let ghost head = spec_repeat(" |"@, level as int) + "-"@ + d.id@ + " "@ + (
                if d.version@.len() == 0 {
                    Seq::<char>::empty()
                } else {
                    "("@ + d.version@ + ")"@
                }) + "\r\n"@;
                proof {
                    assert(line@ =~= head);
                }
                let dep_key = lowercase(deps[j].id.as_str());
                let found = index_lookup(index, dep_key.as_str());
                proof {
                    lemma_index_lookup_in_range(entries, lower_of(d.id@), packages@.len() as int);
                }
                let ghost body = {
                    let idx = spec_index_lookup(entries, lower_of(d.id@));
                    if idx >= 0 {
                        if fuel == 0 || level >= usize::MAX {
                            Seq::<char>::empty()
                        } else {
                            spec_dep_tree_pkg(
                                level as int + 1,
                                packages@[idx],
                                packages@,
                                entries,
                                (fuel - 1) as nat,
                            )
                        }
                    } else {
                        "ERROR: failed to locate "@ + d.id@ + " among local packages\r\n"@
                    }
                };
                match found {
                    Some(idx) => {
                        if fuel > 0 && level < usize::MAX {
                            let sub = get_dependency_tree_pkg_text(
                                level + 1,
                                &packages[idx],
                                packages,
                                index,
                                fuel - 1,
                            );
                            res.append(sub.as_str());
                        }
                    },
                    None => {
                        res.append("ERROR: failed to locate ");
                        res.append(deps[j].id.as_str());
                        res.append(" among local packages\r\n");
                    },
                }
                proof {
                    assert(res@ =~= gres + (head + body));
                    assert(spec_dep_children(
                        depsv.skip(j as int),
                        level as int,
                        packages@,
                        entries,
                        fuel as nat,
                    ) == head + body + spec_dep_children(
                        depsv.skip(j as int + 1),
                        level as int,
                        packages@,
                        entries,
                        fuel as nat,
                    ));
                    assert((gres + (head + body)) + spec_dep_children(
                        depsv.skip(j as int + 1),
                        level as int,
                        packages@,
                        entries,
                        fuel as nat,
                    ) =~= gres + ((head + body) + spec_dep_children(
                        depsv.skip(j as int + 1),
                        level as int,
                        packages@,
                        entries,
                        fuel as nat,
                    )));
                    assert((head + body) + spec_dep_children(
                        depsv.skip(j as int + 1),
                        level as int,
                        packages@,
                        entries,
                        fuel as nat,
                    ) =~= head + body + spec_dep_children(
                        depsv.skip(j as int + 1),
                        level as int,
                        packages@,
                        entries,
                        fuel as nat,
                    ));
                }
                j += 1;
            }
            proof {
                assert(spec_dep_children(
                    depsv.skip(depsv.len() as int),
                    level as int,
                    packages@,
                    entries,
                    fuel as nat,
                ) =~= Seq::<char>::empty());
                assert(res@ + Seq::<char>::empty() =~= res@);
            }
        },
    }
    proof {
        assert(header + spec_dep_children(
            pkg.dependencies->0@,
            level as int,
            packages@,
            index_view(index@),
            fuel as nat,
        ) == spec_dep_tree_pkg(
            level as int,
            *pkg,
            packages@,
            index_view(index@),
            fuel as nat,
        ) || pkg.dependencies is None);
    }
    res
}

/// The whole dependency-tree report: one subtree per package the filter
/// admits, against the packages indexed by lowercased id.
pub open spec fn spec_dep_tree_text(pkgs: Seq<Package>, i: int, flt: Seq<char>) -> Seq<char>
    decreases i,
{
    if i <= 0 {
        Seq::<char>::empty()
    } else {
        spec_dep_tree_text(pkgs, i - 1, flt) + if spec_pkg_included(pkgs[i - 1], flt) {
            spec_dep_tree_pkg(1, pkgs[i - 1], pkgs, spec_pkg_index(pkgs, pkgs.len() as int),
                pkgs.len() as nat)
        } else {
            Seq::<char>::empty()
        }
    }
}

/// Render the dependency tree of every local package the filter admits.
pub fn get_dependency_tree_text(packages: &Vec<Package>, filter: &str) -> (r: String)
    ensures
        r@ == spec_dep_tree_text(packages@, packages@.len() as int, lower_of(filter@)),
{
    let flt = lowercase(filter);
    let n = packages.len();
    let mut index: Vec<(String, usize)> = Vec::new();
    let mut i: usize = 0;
    proof {
        assert(index_view(index@) =~= spec_pkg_index(packages@, 0));
    }
    while i < n
        invariant
            i <= n,
            n == packages@.len(),
            index_view(index@) == spec_pkg_index(packages@, i as int),
            index_in_range(index_view(index@), n as int),
        decreases n - i,
    {
        let key = lowercase(packages[i].id.as_str());
        index_insert(&mut index, key, i);
        proof {
            assert(forall|k: int|
                0 <= k < index_view(index@).len() ==> 0 <= (#[trigger] index_view(index@)[k]).1
                    < n as int) by {
                lemma_map_insert_in_range(
                    spec_pkg_index(packages@, i as int),
                    lower_of(packages@[i as int].id@),
                    i as int,
                    n as int,
                );
            }
        }
        i += 1;
    }
    let mut res = String::new();
    let mut i: usize = 0;
    proof {
        assert(res@ =~= spec_dep_tree_text(packages@, 0, lower_of(filter@)));
    }
    while i < n
        invariant
            i <= n,
            n == packages@.len(),
            flt@ == lower_of(filter@),
            index_view(index@) == spec_pkg_index(packages@, n as int),
            index_in_range(index_view(index@), n as int),
            res@ == spec_dep_tree_text(packages@, i as int, lower_of(filter@)),
        decreases n - i,
    {
        let included = str_eq(flt.as_str(), "all") || str_contains(
            packages[i].id.as_str(),
            flt.as_str(),
        );
        if included {
            let sub = get_dependency_tree_pkg_text(1, &packages[i], packages, &index, n);
            res.append(sub.as_str());
        }
        proof {
            assert(res@ =~= spec_dep_tree_text(packages@, i as int + 1, lower_of(filter@)));
        }
        i += 1;
    }
    res
}

proof fn lemma_map_insert_in_range(entries: Seq<(Seq<char>, int)>, key: Seq<char>, val: int, n: int)
    requires
        index_in_range(entries, n),
        0 <= val < n,
    ensures
        index_in_range(spec_map_insert(entries, key, val), n),
    decreases entries.len(),
{
    if entries.len() > 0 && entries[0].0 != key {
        let d = entries.drop_first();
        assert(forall|k: int| 0 <= k < d.len() ==> d[k] == entries[k + 1]);
        lemma_map_insert_in_range(d, key, val, n);
        let rest = spec_map_insert(d, key, val);
        assert(forall|k: int|
            0 <= k < spec_map_insert(entries, key, val).len() ==> (
            #[trigger] spec_map_insert(entries, key, val)[k]) == if k == 0 {
                entries[0]
            } else {
                rest[k - 1]
            });
    }
}

pub open spec fn spec_c_bool(b: bool) -> Seq<char> {
    if b {
        "True"@
    } else {
        "False"@
    }
}

/// One line of the source listing.  Limited output is pipe-delimited raw
/// fields; the full form decorates the name and url.
pub open spec fn spec_source_line(f: crate::roco::Feed, limitoutput: bool) -> Seq<char> {
    if limitoutput {
        let user = match f.credential {
            Some(auth) => auth.user@,
            None => Seq::<char>::empty(),
        };
        let certificate = match f.certificate {
            Some(c) => c@,
            None => Seq::<char>::empty(),
        };
        f.name@ + "|"@ + f.url@ + "|"@ + spec_c_bool(f.disabled) + "|"@ + user + "|"@ + certificate
            + "|"@ + spec_i64_string(f.priority as int) + "|"@ + spec_c_bool(f.bypass_proxy) + "|"@
            + spec_c_bool(f.self_service) + "|"@ + spec_c_bool(f.admin_only)
    } else {
        let name_1 = if f.disabled {
            f.name@ + " [Disabled]"@
        } else {
            f.name@
        };
        let name_2 = if f.credential is Some {
            f.url@ + " (Authenticated)"@
        } else {
            f.url@ + " "@
        };
        name_1 + " - "@ + name_2 + "| Priority "@ + spec_i64_string(f.priority as int)
            + "|Bypass Proxy - "@ + spec_c_bool(f.bypass_proxy) + "|Self-Service - "@
            + spec_c_bool(f.self_service) + "|Admin Only - "@ + spec_c_bool(f.admin_only) + "."@
    }
}

/// The first `i` source lines, a line break after each line that is not the
/// last feed's.
pub open spec fn spec_sources_upto(feeds: Seq<crate::roco::Feed>, i: int, limitoutput: bool) -> Seq<
    char,
>
    decreases i,
{
    if i <= 0 {
        Seq::<char>::empty()
    } else {
        spec_sources_upto(feeds, i - 1, limitoutput) + spec_source_line(feeds[i - 1], limitoutput)
            + if i < feeds.len() {
            "\r\n"@
        } else {
            Seq::<char>::empty()
        }
    }
}

fn c_bool(v: bool) -> (r: &'static str)
    ensures
        r@ == spec_c_bool(v),
{
    if v {
        "True"
    } else {
        "False"
    }
}

/// The configured sources, one line per feed.
#[verifier::rlimit(100)]
pub fn get_sources_text(sources: &Vec<crate::roco::Feed>, limitoutput: bool) -> (r: String)
    ensures
        r@ == spec_sources_upto(sources@, sources@.len() as int, limitoutput),
{
    let mut res = String::new();
    let mut i: usize = 0;
    let n = sources.len();
    proof {
        assert(res@ =~= spec_sources_upto(sources@, 0, limitoutput));
    }
    while i < n
        invariant
            i <= n,
            n == sources@.len(),
            res@ == spec_sources_upto(sources@, i as int, limitoutput),
        decreases n - i,
    {
        let f = &sources[i];
        let mut line = String::new();
        let priority = i64_to_string(f.priority);
        if limitoutput {
            line.append(f.name.as_str());
            line.append("|");
            line.append(f.url.as_str());
            line.append("|");
            line.append(c_bool(f.disabled));
            line.append("|");
            match &f.credential {
                Some(auth) => line.append(auth.user.as_str()),
                None => (),
            }
            line.append("|");
            match &f.certificate {
                Some(c) => line.append(c.as_str()),
                None => (),
            }
            line.append("|");
            line.append(priority.as_str());
            line.append("|");
            line.append(c_bool(f.bypass_proxy));
            line.append("|");
            line.append(c_bool(f.self_service));
            line.append("|");
            line.append(c_bool(f.admin_only));
        } else {
            line.append(f.name.as_str());
            if f.disabled {
                line.append(" [Disabled]");
            }
            line.append(" - ");
            line.append(f.url.as_str());
            if f.credential.is_some() {
                line.append(" (Authenticated)");
            } else {
                line.append(" ");
            }
            line.append("| Priority ");
            line.append(priority.as_str());
            line.append("|Bypass Proxy - ");
            line.append(c_bool(f.bypass_proxy));
            line.append("|Self-Service - ");
            line.append(c_bool(f.self_service));
            line.append("|Admin Only - ");
            line.append(c_bool(f.admin_only));
            line.append(".");
        }
        proof {
            assert(line@ =~= spec_source_line(sources@[i as int], limitoutput));
        }
        res.append(line.as_str());
        if i + 1 < n {
            res.append("\r\n");
        }
        proof {
            assert(res@ =~= spec_sources_upto(sources@, i as int + 1, limitoutput));
        }
        i += 1;
    }
    res
}

} // verus!
