//! The remote side of the library: transport configuration per feed,
//! feed-type resolution, the fan-out plan for concurrent fetching, the
//! newest-wins merge of feed responses, and the outdated-package report.
//! Network I/O itself lives with the caller; everything decided about it is
//! verified code.

use vstd::prelude::*;

verus! {

use vstd::multiset::Multiset;
use vstd::seq_lib::lemma_multiset_commutative;
use vstd::string::StringExecFns;
use crate::Settings;
use crate::roco::{Credential, Feed, FeedType, OutdatedInfo, Package, ProxySettings};
use crate::roco::nuget3::{service_index_of, read_service_index, index_resources_view};
use crate::roco::semver::{spec_is_newer, is_newer};
use crate::roco::strutil::{
    lower_of, lowercase, spec_starts_with, starts_with, spec_ends_with, ends_with, str_eq,
    spec_lex_gt, lex_gt, spec_u64_string, u64_to_string,
};

// ---------------------------------------------------------------------------
// Transport configuration (HttpClientFactory)
// ---------------------------------------------------------------------------

/// What `http_auth_basic` hands back for a user and password: the value of
/// a basic `Authorization` header, a function of the two strings alone.
pub uninterp spec fn basic_auth_header_of(user: Seq<char>, pass: Seq<char>) -> Seq<char>;

/// Relies on `http_auth_basic::Credentials::new` and `as_http_header`:
/// `Basic ` followed by the base64 encoding of `user:pass` (RFC 7617).
#[verifier::external_body]
fn basic_auth_header(user: &str, pass: &str) -> (r: String)
    ensures
        r@ == basic_auth_header_of(user@, pass@),
{
    http_auth_basic::Credentials::new(user, pass).as_http_header()
}

/// Everything a transport for one feed is configured with.  The caller
/// builds its HTTP client from these plain values.
pub struct ClientConfig {
    pub proxy: Option<ProxySettings>,
    pub auth_header: Option<String>,
    pub user_agent: String,
    pub accept_invalid_certs: bool,
}

fn clone_credential(c: &Credential) -> (r: Credential)
    ensures
        r == *c,
{
    Credential { user: c.user.clone(), pass: c.pass.clone() }
}

/// The transport settings of one feed: its proxy as configured, its own
/// credential as a default `Authorization` header, a fixed identifying
/// user agent, and certificate validation only where required.
pub fn build_client_config(feed: &Feed, settings: &Settings) -> (r: ClientConfig)
    ensures
        r.proxy == feed.proxy,
        match feed.credential {
            Some(c) => match r.auth_header {
                Some(h) => h@ == basic_auth_header_of(c.user@, c.pass@),
                None => false,
            },
            None => r.auth_header is None,
        },
        r.user_agent@ == "rocolatey_lib/0.9.3"@,
        r.accept_invalid_certs == !settings.require_ssl,
{
    let proxy: Option<ProxySettings> = match &feed.proxy {
        Some(p) => Some(
            ProxySettings {
                url: p.url.clone(),
                credential: match &p.credential {
                    Some(c) => Some(clone_credential(c)),
                    None => None,
                },
            },
        ),
        None => None,
    };
    let auth_header: Option<String> = match &feed.credential {
        Some(c) => Some(basic_auth_header(c.user.as_str(), c.pass.as_str())),
        None => None,
    };
    ClientConfig {
        proxy,
        auth_header,
        user_agent: "rocolatey_lib/0.9.3".to_owned(),
        accept_invalid_certs: !settings.require_ssl,
    }
}

// ---------------------------------------------------------------------------
// Feed-type resolution
// ---------------------------------------------------------------------------

/// An http(s) URL as the probe regex sees it: the scheme prefix followed by
/// at least one character that is not a line break.
pub open spec fn spec_is_http_url(u: Seq<char>) -> bool {
    ||| (spec_starts_with(u, "http://"@) && u.len() > 7 && u[7] != '\n')
    ||| (spec_starts_with(u, "https://"@) && u.len() > 8 && u[8] != '\n')
}

pub fn is_http_url(url: &str) -> (r: bool)
    ensures
        r == spec_is_http_url(url@),
{
    proof {
        reveal_strlit("http://");
        reveal_strlit("https://");
    }
    let n = vstd::string::StrSliceExecFns::unicode_len(url);
    if starts_with(url, "http://") && n > 7 {
        if vstd::string::StrSliceExecFns::get_char(url, 7) != '\n' {
            return true;
        }
    }
    if starts_with(url, "https://") && n > 8 {
        if vstd::string::StrSliceExecFns::get_char(url, 8) != '\n' {
            return true;
        }
    }
    false
}

/// A URL that looks like a V3 service index document: it ends in `.json`.
pub open spec fn spec_is_json_url(u: Seq<char>) -> bool {
    spec_ends_with(u, ".json"@)
}

impl Feed {
    /// Resolve the feed type as far as no probe request is needed: a feed
    /// already resolved keeps its type (resolution is idempotent), a
    /// non-http(s) URL is a local filesystem feed, and an http(s) URL that
    /// does not look like a service index is NuGet V2.  `None` asks the
    /// caller to fetch the URL and hand the outcome to `apply_feed_probe`.
    pub fn evaluate_feed_type_offline(&mut self) -> (r: Option<FeedType>)
        ensures
            old(self).feed_type != FeedType::Unknown ==> {
                &&& r == Some(old(self).feed_type)
                &&& *final(self) == *old(self)
            },
            old(self).feed_type == FeedType::Unknown && !spec_is_http_url(old(self).url@) ==> {
                &&& r == Some(FeedType::LocalFileSystem)
                &&& final(self).feed_type == FeedType::LocalFileSystem
            },
            old(self).feed_type == FeedType::Unknown && spec_is_http_url(old(self).url@)
                && !spec_is_json_url(old(self).url@) ==> {
                &&& r == Some(FeedType::NuGetV2)
                &&& final(self).feed_type == FeedType::NuGetV2
            },
            old(self).feed_type == FeedType::Unknown && spec_is_http_url(old(self).url@)
                && spec_is_json_url(old(self).url@) ==> {
                &&& r is None
                &&& *final(self) == *old(self)
            },
            final(self).name == old(self).name,
            final(self).url == old(self).url,
            final(self).credential == old(self).credential,
            final(self).proxy == old(self).proxy,
            final(self).disabled == old(self).disabled,
            final(self).certificate == old(self).certificate,
            final(self).bypass_proxy == old(self).bypass_proxy,
            final(self).self_service == old(self).self_service,
            final(self).admin_only == old(self).admin_only,
            final(self).priority == old(self).priority,
            final(self).service_index == old(self).service_index,
    {
        match self.feed_type {
            FeedType::Unknown => (),
            t => {
                return Some(t);
            },
        }
        if !is_http_url(self.url.as_str()) {
            self.feed_type = FeedType::LocalFileSystem;
            return Some(FeedType::LocalFileSystem);
        }
        if !ends_with(self.url.as_str(), ".json") {
            self.feed_type = FeedType::NuGetV2;
            return Some(FeedType::NuGetV2);
        }
        None
    }

    /// Settle a probed feed from the probe's outcome: `body` carries the
    /// fetched document where the request succeeded with a body, `None`
    /// where the response was no success.  A body that is JSON makes the
    /// feed NuGet V3 and stores whatever service index the document holds;
    /// anything else makes it NuGet V2.  A transport failure is the
    /// caller's to report and leaves the feed unresolved.
    pub fn apply_feed_probe(&mut self, body: Option<&str>) -> (r: FeedType)
        ensures
            r == final(self).feed_type,
            match body {
                None => {
                    &&& final(self).feed_type == FeedType::NuGetV2
                    &&& final(self).service_index == old(self).service_index
                },
                Some(b) => match service_index_of(b@) {
                    None => {
                        &&& final(self).feed_type == FeedType::NuGetV2
                        &&& final(self).service_index == old(self).service_index
                    },
                    Some(None) => {
                        &&& final(self).feed_type == FeedType::NuGetV3
                        &&& final(self).service_index is None
                    },
                    Some(Some(rv)) => {
                        &&& final(self).feed_type == FeedType::NuGetV3
                        &&& match final(self).service_index {
                            Some(idx) => index_resources_view(idx) == rv,
                            None => false,
                        }
                    },
                },
            },
            final(self).name == old(self).name,
            final(self).url == old(self).url,
            final(self).credential == old(self).credential,
            final(self).proxy == old(self).proxy,
            final(self).disabled == old(self).disabled,
            final(self).certificate == old(self).certificate,
            final(self).bypass_proxy == old(self).bypass_proxy,
            final(self).self_service == old(self).self_service,
            final(self).admin_only == old(self).admin_only,
            final(self).priority == old(self).priority,
    {
        match body {
            None => {
                self.feed_type = FeedType::NuGetV2;
                FeedType::NuGetV2
            },
            Some(b) => {
                match read_service_index(b) {
                    None => {
                        self.feed_type = FeedType::NuGetV2;
                        FeedType::NuGetV2
                    },
                    Some(idx) => {
                        self.feed_type = FeedType::NuGetV3;
                        self.service_index = idx;
                        FeedType::NuGetV3
                    },
                }
            },
        }
    }
}

/// The feeds that take part in resolution: every feed not disabled, in
/// configuration order.
pub open spec fn spec_enabled_feeds(feeds: Seq<Feed>) -> Seq<Feed>
    decreases feeds.len(),
{
    if feeds.len() == 0 {
        Seq::<Feed>::empty()
    } else {
        (if !feeds[0].disabled {
            seq![feeds[0]]
        } else {
            Seq::<Feed>::empty()
        }) + spec_enabled_feeds(feeds.drop_first())
    }
}

/// Drop disabled feeds before any network activity.
pub fn enabled_feeds(feeds: Vec<Feed>) -> (r: Vec<Feed>)
    ensures
        r@ == spec_enabled_feeds(feeds@),
{
    let ghost orig = feeds@;
    let mut rest = feeds;
    let mut out: Vec<Feed> = Vec::new();
    proof {
        assert(out@ + spec_enabled_feeds(rest@) =~= spec_enabled_feeds(orig));
    }
    while rest.len() > 0
        invariant
            out@ + spec_enabled_feeds(rest@) == spec_enabled_feeds(orig),
        decreases rest@.len(),
    {
        let ghost before = rest@;
        let f = rest.remove(0);
        proof {
            assert(rest@ =~= before.drop_first());
            assert(before[0] == f);
        }
        if !f.disabled {
            let ghost out_before = out@;
            let ghost tail = spec_enabled_feeds(rest@);
            out.push(f);
            proof {
                assert(out@ =~= out_before + seq![before[0]]);
                assert((out_before + seq![before[0]]) + tail =~= out_before + (seq![before[0]]
                    + tail));
            }
        }
    }
    proof {
        assert(spec_enabled_feeds(rest@) =~= Seq::<Feed>::empty());
        assert(out@ + Seq::<Feed>::empty() =~= out@);
    }
    out
}

// ---------------------------------------------------------------------------
// Fan-out plan (FetchOrchestrator)
// ---------------------------------------------------------------------------

/// Relies on `num_cpus::get`: the number of logical CPUs available to the
/// process, which its documentation promises to be at least 1.
#[verifier::external_body]
pub fn cpu_count() -> (r: usize)
    ensures
        r >= 1,
{
    num_cpus::get()
}

pub open spec fn spec_num_parts(threads: int, feeds: int) -> int {
    let lo = if threads < threads / feeds {
        threads
    } else {
        threads / feeds
    };
    if 2 > lo {
        2
    } else {
        lo
    }
}

/// How the requested packages are spread over concurrent tasks: the number
/// of chunks `max(2, min(threads, threads / feeds))` and the size of each,
/// the package count divided into that many parts, rounded up.
pub fn chunk_plan(num_threads: usize, num_feeds: usize, num_pkgs: usize) -> (r: (usize, usize))
    requires
        num_threads >= 1,
        num_feeds >= 1,
        num_pkgs >= 1,
    ensures
        r.0 == spec_num_parts(num_threads as int, num_feeds as int),
        r.1 == (num_pkgs + r.0 - 1) / (r.0 as int),
        r.1 >= 1,
{
    let ratio = num_threads / num_feeds;
    let lo = if num_threads < ratio {
        num_threads
    } else {
        ratio
    };
    let num_parts = if 2 > lo {
        2
    } else {
        lo
    };
    proof {
        assert((num_pkgs as int) / (num_parts as int) < num_pkgs) by (nonlinear_arith)
            requires
                num_parts >= 2,
                num_pkgs >= 1,
        ;
    }
    let chunk_size = num_pkgs / num_parts + if num_pkgs % num_parts != 0 {
        1
    } else {
        0
    };
    proof {
        assert(chunk_size == (num_pkgs + num_parts - 1) / (num_parts as int) && chunk_size >= 1)
            by (nonlinear_arith)
            requires
                num_parts >= 2,
                num_pkgs >= 1,
                chunk_size == (num_pkgs as int) / (num_parts as int) + if (num_pkgs as int) % (
                num_parts as int) != 0 {
                    1int
                } else {
                    0int
                },
        ;
    }
    (num_parts, chunk_size)
}

/// The requested packages cut into consecutive chunks of `size` (the last
/// may be shorter), in order.
pub open spec fn spec_chunks(pkgs: Seq<Package>, size: int) -> Seq<Seq<Package>>
    decreases pkgs.len(),
{
    if pkgs.len() == 0 {
        Seq::<Seq<Package>>::empty()
    } else if size < 1 || pkgs.len() <= size {
        seq![pkgs]
    } else {
        seq![pkgs.take(size)] + spec_chunks(pkgs.skip(size), size)
    }
}

/// Cut the package list into chunks of `chunk_size` for the per-task fan
/// out; concatenated back together the chunks are exactly the input.
pub fn split_chunks(pkgs: Vec<Package>, chunk_size: usize) -> (r: Vec<Vec<Package>>)
    requires
        chunk_size >= 1,
    ensures
        r@.map_values(|c: Vec<Package>| c@) == spec_chunks(pkgs@, chunk_size as int),
{
    let ghost orig = pkgs@;
    let mut rest = pkgs;
    let mut out: Vec<Vec<Package>> = Vec::new();
    proof {
        assert(out@.map_values(|c: Vec<Package>| c@) + spec_chunks(rest@, chunk_size as int)
            =~= spec_chunks(orig, chunk_size as int));
    }
    while rest.len() > 0
        invariant
            chunk_size >= 1,
            out@.map_values(|c: Vec<Package>| c@) + spec_chunks(rest@, chunk_size as int)
                == spec_chunks(orig, chunk_size as int),
        decreases rest@.len(),
    {
        let ghost before = rest@;
        let mut chunk: Vec<Package> = Vec::new();
        let take_n = if rest.len() <= chunk_size {
            rest.len()
        } else {
            chunk_size
        };
        let mut k: usize = 0;
        while k < take_n
            invariant
                k <= take_n,
                take_n <= rest@.len() + k,
                before == chunk@ + rest@,
                chunk@.len() == k,
                take_n == if before.len() <= chunk_size {
                    before.len() as int
                } else {
                    chunk_size as int
                },
            decreases take_n - k,
        {
            let ghost mid = rest@;
            let p = rest.remove(0);
            chunk.push(p);
            proof {
                assert(chunk@ =~= chunk@.drop_last().push(mid[0]));
                assert(chunk@ + rest@ =~= before);
            }
            k += 1;
        }
        let ghost out_before = out@.map_values(|c: Vec<Package>| c@);
        let ghost chunkv = chunk@;
        out.push(chunk);
        proof {
            assert(out@.map_values(|c: Vec<Package>| c@) =~= out_before + seq![chunkv]);
            if before.len() <= chunk_size {
                assert(chunkv =~= before);
                assert(rest@.len() == 0);
                assert(spec_chunks(before, chunk_size as int) == seq![before]);
            } else {
                assert(chunkv =~= before.take(chunk_size as int));
                assert(rest@ =~= before.skip(chunk_size as int));
            }
            let tail = spec_chunks(rest@, chunk_size as int);
            assert((out_before + seq![chunkv]) + tail =~= out_before + (seq![chunkv] + tail));
        }
    }
    proof {
        assert(spec_chunks(rest@, chunk_size as int) =~= Seq::<Seq<Package>>::empty());
        assert(out@.map_values(|c: Vec<Package>| c@) + Seq::<Seq<Package>>::empty()
            =~= out@.map_values(|c: Vec<Package>| c@));
    }
    out
}

// ---------------------------------------------------------------------------
// The newest-wins merge
// ---------------------------------------------------------------------------

/// The key/value view of the merged map: lowercased id keys and the stored
/// packages, in insertion order.
pub open spec fn map_entries(v: Seq<(String, Package)>) -> Seq<(Seq<char>, Package)> {
    v.map_values(|e: (String, Package)| (e.0@, e.1))
}

/// The position of `key` among the entries, or `-1`.
pub open spec fn spec_pkg_lookup(entries: Seq<(Seq<char>, Package)>, key: Seq<char>) -> int
    decreases entries.len(),
{
    if entries.len() == 0 {
        -1
    } else if entries[0].0 == key {
        0
    } else {
        let r = spec_pkg_lookup(entries.drop_first(), key);
        if r < 0 {
            -1
        } else {
            r + 1
        }
    }
}

proof fn lemma_pkg_lookup_at(entries: Seq<(Seq<char>, Package)>, key: Seq<char>, j: int)
    requires
        0 <= j < entries.len(),
        entries[j].0 == key,
        forall|k: int| 0 <= k < j ==> (#[trigger] entries[k]).0 != key,
    ensures
        spec_pkg_lookup(entries, key) == j,
    decreases j,
{
    if j > 0 {
        let d = entries.drop_first();
        assert(d[j - 1] == entries[j]);
        assert(forall|k: int| 0 <= k < j - 1 ==> (#[trigger] d[k]).0 != key);
        lemma_pkg_lookup_at(d, key, j - 1);
    }
}

proof fn lemma_pkg_lookup_none(entries: Seq<(Seq<char>, Package)>, key: Seq<char>)
    requires
        forall|k: int| 0 <= k < entries.len() ==> (#[trigger] entries[k]).0 != key,
    ensures
        spec_pkg_lookup(entries, key) == -1,
    decreases entries.len(),
{
    if entries.len() > 0 {
        let d = entries.drop_first();
        assert(forall|k: int| 0 <= k < d.len() ==> (#[trigger] d[k]).0 != key);
        lemma_pkg_lookup_none(d, key);
    }
}

/// One package folded into the map: inserted under its lowercased id where
/// the id is new, replacing the stored package where it is strictly newer,
/// discarded otherwise.
pub open spec fn spec_merge_one(entries: Seq<(Seq<char>, Package)>, p: Package) -> Seq<
    (Seq<char>, Package),
> {
    let key = lower_of(p.id@);
    let i = spec_pkg_lookup(entries, key);
    if i < 0 {
        entries.push((key, p))
    } else if spec_is_newer(p.version@, entries[i].1.version@) {
        entries.update(i, (key, p))
    } else {
        entries
    }
}

/// A whole response folded into the map, package by package, in order.
pub open spec fn spec_merge(entries: Seq<(Seq<char>, Package)>, pkgs: Seq<Package>) -> Seq<
    (Seq<char>, Package),
>
    decreases pkgs.len(),
{
    if pkgs.len() == 0 {
        entries
    } else {
        spec_merge(spec_merge_one(entries, pkgs[0]), pkgs.drop_first())
    }
}

proof fn lemma_merge_snoc(entries: Seq<(Seq<char>, Package)>, pkgs: Seq<Package>, p: Package)
    ensures
        spec_merge(entries, pkgs.push(p)) == spec_merge_one(spec_merge(entries, pkgs), p),
    decreases pkgs.len(),
{
    if pkgs.len() == 0 {
        assert(pkgs.push(p)[0] == p);
        assert(pkgs.push(p).drop_first() =~= Seq::<Package>::empty());
        assert(spec_merge(entries, pkgs) == entries);
        assert(spec_merge(spec_merge_one(entries, p), Seq::<Package>::empty())
            == spec_merge_one(entries, p));
    } else {
        assert(pkgs.push(p)[0] == pkgs[0]);
        assert(pkgs.push(p).drop_first() =~= pkgs.drop_first().push(p));
        lemma_merge_snoc(spec_merge_one(entries, pkgs[0]), pkgs.drop_first(), p);
        assert(spec_merge(entries, pkgs) == spec_merge(
            spec_merge_one(entries, pkgs[0]),
            pkgs.drop_first(),
        ));
        assert(spec_merge(entries, pkgs.push(p)) == spec_merge(
            spec_merge_one(entries, pkgs[0]),
            pkgs.drop_first().push(p),
        ));
    }
}

/// The id-to-latest-package map that the fetch results merge into.
pub struct RemotePackageMap {
    pub entries: Vec<(String, Package)>,
}

impl RemotePackageMap {
    pub fn new() -> (r: RemotePackageMap)
        ensures
            r.entries@.len() == 0,
    {
        RemotePackageMap { entries: Vec::new() }
    }

    /// The stored package under an already-lowercased id, if any.
    pub fn get(&self, key: &str) -> (r: Option<&Package>)
        ensures
            match r {
                Some(p) => {
                    &&& spec_pkg_lookup(map_entries(self.entries@), key@) >= 0
                    &&& *p == map_entries(self.entries@)[spec_pkg_lookup(
                        map_entries(self.entries@),
                        key@,
                    )].1
                },
                None => spec_pkg_lookup(map_entries(self.entries@), key@) == -1,
            },
    {
        let ghost entries = map_entries(self.entries@);
        let mut j: usize = 0;
        while j < self.entries.len()
            invariant
                j <= self.entries@.len(),
                entries == map_entries(self.entries@),
                forall|k: int| 0 <= k < j ==> (#[trigger] entries[k]).0 != key@,
            decreases self.entries@.len() - j,
        {
            proof {
                assert(entries[j as int] == (self.entries@[j as int].0@,
                self.entries@[j as int].1));
            }
            if str_eq(self.entries[j].0.as_str(), key) {
                proof {
                    lemma_pkg_lookup_at(entries, key@, j as int);
                }
                return Some(&self.entries[j].1);
            }
            j += 1;
        }
        proof {
            lemma_pkg_lookup_none(entries, key@);
        }
        None
    }

    /// Fold one response's packages into the map: the newest version wins,
    /// whichever feed or chunk produced it, and ids are compared
    /// case-insensitively.
    pub fn merge(&mut self, pkgs: Vec<Package>)
        ensures
            map_entries(final(self).entries@) == spec_merge(
                map_entries(old(self).entries@),
                pkgs@,
            ),
    {
        let ghost entries0 = map_entries(self.entries@);
        let ghost orig = pkgs@;
        let mut rest = pkgs;
        let total = rest.len();
        let mut done: usize = 0;
        proof {
            assert(orig.take(0) =~= Seq::<Package>::empty());
        }
        while rest.len() > 0
            invariant
                total == orig.len(),
                done + rest@.len() == orig.len(),
                rest@ =~= orig.skip(done as int),
                map_entries(self.entries@) == spec_merge(entries0, orig.take(done as int)),
            decreases rest@.len(),
        {
            let ghost before = rest@;
            let ghost map_before = map_entries(self.entries@);
            let p = rest.remove(0);
            proof {
                assert(before[0] == p);
                assert(rest@ =~= before.drop_first());
                assert(orig.take(done as int).push(p) =~= orig.take(done as int + 1));
                assert(rest@ =~= orig.skip(done as int + 1));
            }
            self.merge_one(p);
            proof {
                lemma_merge_snoc(entries0, orig.take(done as int), orig[done as int]);
            }
            done += 1;
        }
        proof {
            assert(orig.take(orig.len() as int) =~= orig);
        }
    }

    /// Fold a single package into the map.
    fn merge_one(&mut self, p: Package)
        ensures
            map_entries(final(self).entries@) == spec_merge_one(map_entries(old(self).entries@), p),
    {
        let ghost entries = map_entries(self.entries@);
        let key = lowercase(p.id.as_str());
        let mut j: usize = 0;
        while j < self.entries.len()
            invariant
                j <= self.entries@.len(),
                self.entries@ == old(self).entries@,
                entries == map_entries(self.entries@),
                key@ == lower_of(p.id@),
                forall|k: int| 0 <= k < j ==> (#[trigger] entries[k]).0 != key@,
            decreases self.entries@.len() - j,
        {
            proof {
                assert(entries[j as int] == (self.entries@[j as int].0@,
                self.entries@[j as int].1));
            }
            if str_eq(self.entries[j].0.as_str(), key.as_str()) {
                proof {
                    lemma_pkg_lookup_at(entries, key@, j as int);
                }
                if is_newer(p.version.as_str(), self.entries[j].1.version.as_str()) {
                    let _ = self.entries.remove(j);
                    self.entries.insert(j, (key, p));
                    proof {
                        assert(map_entries(self.entries@) =~= entries.update(
                            j as int,
                            (key@, p),
                        ));
                    }
                }
                return ;
            }
            j += 1;
        }
        proof {
            lemma_pkg_lookup_none(entries, key@);
        }
        self.entries.push((key, p));
        proof {
            assert(map_entries(self.entries@) =~= entries.push((key@, p)));
        }
    }
}

/// Merging the same two versions of one package in either order keeps the
/// strictly newer one: task completion order does not affect the winner.
pub proof fn lemma_merge_newest_wins(a: Package, b: Package)
    requires
        lower_of(a.id@) == lower_of(b.id@),
        spec_is_newer(b.version@, a.version@),
        !spec_is_newer(a.version@, b.version@),
    ensures
        spec_merge(Seq::<(Seq<char>, Package)>::empty(), seq![a, b]) == seq![
            (lower_of(a.id@), b),
        ],
        spec_merge(Seq::<(Seq<char>, Package)>::empty(), seq![b, a]) == seq![
            (lower_of(a.id@), b),
        ],
{
    let e0 = Seq::<(Seq<char>, Package)>::empty();
    let key = lower_of(a.id@);
    let ea = spec_merge_one(e0, a);
    let eb = spec_merge_one(e0, b);
    assert(spec_pkg_lookup(e0, key) == -1);
    assert(ea =~= seq![(key, a)]);
    assert(eb =~= seq![(key, b)]);
    assert(spec_pkg_lookup(ea, key) == 0);
    assert(spec_pkg_lookup(eb, lower_of(a.id@)) == 0);
    assert(spec_merge_one(ea, b) =~= seq![(key, b)]);
    assert(spec_merge_one(eb, a) == eb);
    assert(seq![a, b].drop_first() =~= seq![b]);
    assert(seq![b, a].drop_first() =~= seq![a]);
    assert(seq![b].drop_first() =~= Seq::<Package>::empty());
    assert(seq![a].drop_first() =~= Seq::<Package>::empty());
    assert(spec_merge(e0, seq![a, b]) == spec_merge(ea, seq![b]));
    assert(spec_merge(ea, seq![b]) == spec_merge(spec_merge_one(ea, b), Seq::<Package>::empty()));
    assert(spec_merge(e0, seq![b, a]) == spec_merge(eb, seq![a]));
    assert(spec_merge(eb, seq![a]) == spec_merge(spec_merge_one(eb, a), Seq::<Package>::empty()));
}

// ---------------------------------------------------------------------------
// The outdated-package resolver
// ---------------------------------------------------------------------------

/// The packages whose id matches `id` case-insensitively (package identity
/// is always compared case-insensitively), in order.
pub open spec fn spec_filter_by_id(pkgs: Seq<Package>, id: Seq<char>) -> Seq<Package>
    decreases pkgs.len(),
{
    if pkgs.len() == 0 {
        Seq::<Package>::empty()
    } else {
        (if lower_of(pkgs[0].id@) == lower_of(id) {
            seq![pkgs[0]]
        } else {
            Seq::<Package>::empty()
        }) + spec_filter_by_id(pkgs.drop_first(), id)
    }
}

/// Narrow the local inventory to the requested package: `all` keeps
/// everything, any other id keeps its case-insensitive matches and is an
/// error when nothing matches.
pub fn filter_local_packages(local_packages: Vec<Package>, pkg: &str) -> (r: Result<
    Vec<Package>,
    String,
>)
    ensures
        match r {
            Ok(v) => {
                &&& (pkg@ == "all"@ ==> v@ == local_packages@)
                &&& (pkg@ != "all"@ ==> v@ == spec_filter_by_id(local_packages@, pkg@)
                    && v@.len() > 0)
            },
            Err(e) => {
                &&& pkg@ != "all"@
                &&& spec_filter_by_id(local_packages@, pkg@).len() == 0
                &&& e@ == "package '"@ + pkg@ + "' not present in local packages."@
            },
        },
{
    if str_eq(pkg, "all") {
        return Ok(local_packages);
    }
    let target = lowercase(pkg);
    let ghost orig = local_packages@;
    let mut rest = local_packages;
    let mut out: Vec<Package> = Vec::new();
    proof {
        assert(out@ + spec_filter_by_id(rest@, pkg@) =~= spec_filter_by_id(orig, pkg@));
    }
    while rest.len() > 0
        invariant
            target@ == lower_of(pkg@),
            out@ + spec_filter_by_id(rest@, pkg@) == spec_filter_by_id(orig, pkg@),
        decreases rest@.len(),
    {
        let ghost before = rest@;
        let p = rest.remove(0);
        proof {
            assert(rest@ =~= before.drop_first());
            assert(before[0] == p);
        }
        let candidate = lowercase(p.id.as_str());
        if str_eq(candidate.as_str(), target.as_str()) {
            let ghost out_before = out@;
            let ghost tail = spec_filter_by_id(rest@, pkg@);
            out.push(p);
            proof {
                assert(out@ =~= out_before + seq![before[0]]);
                assert((out_before + seq![before[0]]) + tail =~= out_before + (seq![before[0]]
                    + tail));
            }
        }
    }
    proof {
        assert(spec_filter_by_id(rest@, pkg@) =~= Seq::<Package>::empty());
        assert(out@ + Seq::<Package>::empty() =~= out@);
    }
    if out.len() == 0 {
        let mut e = "package '".to_owned();
        e.append(pkg);
        e.append("' not present in local packages.");
        return Err(e);
    }
    Ok(out)
}

/// One report row as plain values: id, local version, remote version,
/// pinned, outdated, exists-on-remote.
pub open spec fn oi_view(o: OutdatedInfo) -> (Seq<char>, Seq<char>, Seq<char>, bool, bool, bool) {
    (o.id@, o.local_version@, o.remote_version@, o.pinned, o.outdated, o.exists_on_remote)
}

/// The report rows for the local inventory against the merged remote map:
/// one outdated row per local package with a strictly newer remote
/// version, one warning row per package unfound remotely (unless unfound
/// packages are ignored), pinned packages skipped when asked.
pub open spec fn spec_outdated_records(
    local: Seq<Package>,
    entries: Seq<(Seq<char>, Package)>,
    ignore_pinned: bool,
    ignore_unfound: bool,
) -> Seq<(Seq<char>, Seq<char>, Seq<char>, bool, bool, bool)>
    decreases local.len(),
{
    if local.len() == 0 {
        Seq::<(Seq<char>, Seq<char>, Seq<char>, bool, bool, bool)>::empty()
    } else {
        let l = local[0];
        let rest = spec_outdated_records(local.drop_first(), entries, ignore_pinned, ignore_unfound);
        if ignore_pinned && l.pinned {
            rest
        } else {
            let i = spec_pkg_lookup(entries, lower_of(l.id@));
            if i >= 0 {
                let u = entries[i].1;
                if spec_is_newer(u.version@, l.version@) {
                    seq![(l.id@, l.version@, u.version@, l.pinned, true, true)] + rest
                } else {
                    rest
                }
            } else if !ignore_unfound {
                seq![(l.id@, l.version@, l.version@, l.pinned, false, false)] + rest
            } else {
                rest
            }
        }
    }
}

/// Build the report rows: compare each local package against the best
/// remote version under its lowercased id.
pub fn build_outdated_info(
    local_packages: &Vec<Package>,
    latest_packages: &RemotePackageMap,
    ignore_pinned: bool,
    ignore_unfound: bool,
) -> (r: Vec<OutdatedInfo>)
    ensures
        r@.map_values(|o: OutdatedInfo| oi_view(o)) == spec_outdated_records(
            local_packages@,
            map_entries(latest_packages.entries@),
            ignore_pinned,
            ignore_unfound,
        ),
{
    let ghost entries = map_entries(latest_packages.entries@);
    let mut oi: Vec<OutdatedInfo> = Vec::new();
    let mut i: usize = 0;
    let n = local_packages.len();
    proof {
        assert(local_packages@.skip(0) =~= local_packages@);
        assert(oi@.map_values(|o: OutdatedInfo| oi_view(o)) =~= Seq::<
            (Seq<char>, Seq<char>, Seq<char>, bool, bool, bool),
        >::empty());
    }
    while i < n
        invariant
            i <= n,
            n == local_packages@.len(),
            entries == map_entries(latest_packages.entries@),
            oi@.map_values(|o: OutdatedInfo| oi_view(o)) + spec_outdated_records(
                local_packages@.skip(i as int),
                entries,
                ignore_pinned,
                ignore_unfound,
            ) == spec_outdated_records(local_packages@, entries, ignore_pinned, ignore_unfound),
        decreases n - i,
    {
        let ghost l = local_packages@[i as int];
        proof {
            assert(local_packages@.skip(i as int)[0] == l);
            assert(local_packages@.skip(i as int).drop_first() =~= local_packages@.skip(
                i as int + 1,
            ));
        }
        let ghost views = oi@.map_values(|o: OutdatedInfo| oi_view(o));
        let ghost tail = spec_outdated_records(
            local_packages@.skip(i as int + 1),
            entries,
            ignore_pinned,
            ignore_unfound,
        );
        if !(ignore_pinned && local_packages[i].pinned) {
            let key = lowercase(local_packages[i].id.as_str());
            match latest_packages.get(key.as_str()) {
                Some(u) => {
                    let remote_version = u.version.clone();
                    if is_newer(remote_version.as_str(), local_packages[i].version.as_str()) {
                        oi.push(
                            OutdatedInfo {
                                id: local_packages[i].id.clone(),
                                local_version: local_packages[i].version.clone(),
                                remote_version,
                                pinned: local_packages[i].pinned,
                                outdated: true,
                                exists_on_remote: true,
                            },
                        );
                        proof {
                            let row = (l.id@, l.version@, entries[spec_pkg_lookup(
                                entries,
                                lower_of(l.id@),
                            )].1.version@, l.pinned, true, true);
                            assert(oi@.map_values(|o: OutdatedInfo| oi_view(o)) =~= views + seq![
                                row,
                            ]);
                            assert((views + seq![row]) + tail =~= views + (seq![row] + tail));
                        }
                    }
                },
                None => {
                    if !ignore_unfound {
                        oi.push(
                            OutdatedInfo {
                                id: local_packages[i].id.clone(),
                                local_version: local_packages[i].version.clone(),
                                remote_version: local_packages[i].version.clone(),
                                pinned: local_packages[i].pinned,
                                outdated: false,
                                exists_on_remote: false,
                            },
                        );
                        proof {
                            let row = (l.id@, l.version@, l.version@, l.pinned, false, false);
                            assert(oi@.map_values(|o: OutdatedInfo| oi_view(o)) =~= views + seq![
                                row,
                            ]);
                            assert((views + seq![row]) + tail =~= views + (seq![row] + tail));
                        }
                    }
                },
            }
        }
        i += 1;
    }
    proof {
        assert(local_packages@.skip(n as int).len() == 0);
        assert(oi@.map_values(|o: OutdatedInfo| oi_view(o)) + Seq::<
            (Seq<char>, Seq<char>, Seq<char>, bool, bool, bool),
        >::empty() =~= oi@.map_values(|o: OutdatedInfo| oi_view(o)));
    }
    oi
}

// ---------------------------------------------------------------------------
// Sorting the report
// ---------------------------------------------------------------------------

/// Report rows ordered by id, case-insensitively.
pub open spec fn spec_sorted_by_lower_id(s: Seq<OutdatedInfo>) -> bool {
    forall|i: int, j: int|
        0 <= i < j < s.len() ==> !spec_lex_gt(
            lower_of((#[trigger] s[i]).id@),
            lower_of((#[trigger] s[j]).id@),
        )
}

/// Sort the report rows by id, case-insensitively: the result is ordered
/// and holds exactly the rows given.
pub fn sort_outdated(records: Vec<OutdatedInfo>) -> (r: Vec<OutdatedInfo>)
    ensures
        spec_sorted_by_lower_id(r@),
        r@.to_multiset() == records@.to_multiset(),
{
    broadcast use vstd::seq_lib::group_to_multiset_ensures;
    broadcast use vstd::multiset::group_multiset_axioms;
    broadcast use vstd::multiset::lemma_multiset_empty_len;

    let ghost orig = records@;
    let mut rest = records;
    let mut out: Vec<OutdatedInfo> = Vec::new();
    proof {
        assert(out@.to_multiset().add(rest@.to_multiset()) =~= orig.to_multiset());
    }
    while rest.len() > 0
        invariant
            spec_sorted_by_lower_id(out@),
            out@.to_multiset().add(rest@.to_multiset()) == orig.to_multiset(),
        decreases rest@.len(),
    {
        let ghost rest_before = rest@;
        let x = rest.remove(0);
        proof {
            assert(rest@ =~= rest_before.drop_first());
            assert(rest_before[0] == x);
            assert(rest_before.drop_first() =~= rest_before.remove(0));
        }
        let key = lowercase(x.id.as_str());
        let mut k: usize = 0;
        let mut found_greater = false;
        while !found_greater && k < out.len()
            invariant
                k <= out@.len(),
                key@ == lower_of(x.id@),
                spec_sorted_by_lower_id(out@),
                forall|i: int|
                    0 <= i < k ==> !spec_lex_gt(lower_of((#[trigger] out@[i]).id@), lower_of(x.id@)),
                found_greater ==> k < out@.len() && spec_lex_gt(
                    lower_of(out@[k as int].id@),
                    lower_of(x.id@),
                ),
            decreases out@.len() - k + (if found_greater {
                0int
            } else {
                1int
            }),
        {
            let out_key = lowercase(out[k].id.as_str());
            if lex_gt(out_key.as_str(), key.as_str()) {
                found_greater = true;
            } else {
                k += 1;
            }
        }
        let ghost out_before = out@;
        out.insert(k, x);
        proof {
            // ordering: everything before k is not greater than x, and x is
            // not greater than anything from k on
            assert forall|j: int| k <= j < out_before.len() implies !spec_lex_gt(
                lower_of(x.id@),
                lower_of(out_before[j].id@),
            ) by {
                // the scan stopped at the first row greater than x, so the
                // range is empty unless such a row exists
                assert(found_greater && k < out_before.len());
                if spec_lex_gt(lower_of(x.id@), lower_of(out_before[j].id@)) {
                    if j > k {
                        crate::roco::strutil::lemma_lex_gt_trans(
                            lower_of(out_before[k as int].id@),
                            lower_of(x.id@),
                            lower_of(out_before[j].id@),
                        );
                        crate::roco::strutil::lemma_lex_gt_asymmetric(
                            lower_of(out_before[k as int].id@),
                            lower_of(out_before[j].id@),
                        );
                    } else {
                        crate::roco::strutil::lemma_lex_gt_asymmetric(
                            lower_of(out_before[k as int].id@),
                            lower_of(x.id@),
                        );
                    }
                }
            }
            assert(spec_sorted_by_lower_id(out@)) by {
                assert(forall|j: int|
                    0 <= j < out@.len() ==> #[trigger] out@[j] == if j < k {
                        out_before[j]
                    } else if j == k {
                        x
                    } else {
                        out_before[j - 1]
                    });
            }
            // contents: the insert adds exactly x
            assert(out_before.insert(k as int, x) =~= out_before.take(k as int) + (seq![x]
                + out_before.skip(k as int)));
            lemma_multiset_commutative(out_before.take(k as int), seq![x] + out_before.skip(
                k as int,
            ));
            lemma_multiset_commutative(seq![x], out_before.skip(k as int));
            lemma_multiset_commutative(out_before.take(k as int), out_before.skip(k as int));
            assert(out_before.take(k as int) + out_before.skip(k as int) =~= out_before);
            assert(seq![x] =~= Seq::<OutdatedInfo>::empty().push(x));
            Seq::<OutdatedInfo>::empty().to_multiset_ensures();
            rest_before.to_multiset_ensures();
            assert(Seq::<OutdatedInfo>::empty().to_multiset().len() == 0);
            assert(Seq::<OutdatedInfo>::empty().to_multiset() =~= Multiset::<
                OutdatedInfo,
            >::empty());
            assert(seq![x].to_multiset() =~= Multiset::<OutdatedInfo>::empty().insert(x));
            assert(out@.to_multiset() =~= out_before.to_multiset().insert(x));
            assert(rest_before.to_multiset() =~= rest@.to_multiset().insert(x));
            assert(out@.to_multiset().add(rest@.to_multiset()) =~= orig.to_multiset());
        }
    }
    proof {
        assert(rest@.to_multiset() =~= Multiset::<OutdatedInfo>::empty());
        assert(out@.to_multiset().add(Multiset::<OutdatedInfo>::empty()) =~= out@.to_multiset());
    }
    out
}

// ---------------------------------------------------------------------------
// Rendering the report
// ---------------------------------------------------------------------------

pub open spec fn spec_bool_string(b: bool) -> Seq<char> {
    if b {
        "true"@
    } else {
        "false"@
    }
}

/// The report body over the first `i` rows: a space-joined id list, or one
/// pipe-delimited line per row.
pub open spec fn spec_report_lines(recs: Seq<OutdatedInfo>, i: int, list_output: bool) -> Seq<char>
    decreases i,
{
    if i <= 0 {
        Seq::<char>::empty()
    } else {
        spec_report_lines(recs, i - 1, list_output) + if list_output {
            recs[i - 1].id@ + " "@
        } else {
            recs[i - 1].id@ + "|"@ + recs[i - 1].local_version@ + "|"@ + recs[i - 1].remote_version@
                + "|"@ + spec_bool_string(recs[i - 1].pinned) + "\n"@
        }
    }
}

/// The warnings section over the first `i` rows: one ` - id` line per row
/// whose package exists on no feed.
pub open spec fn spec_warning_lines(recs: Seq<OutdatedInfo>, i: int) -> Seq<char>
    decreases i,
{
    if i <= 0 {
        Seq::<char>::empty()
    } else {
        spec_warning_lines(recs, i - 1) + if !recs[i - 1].exists_on_remote {
            " - "@ + recs[i - 1].id@ + "\n"@
        } else {
            Seq::<char>::empty()
        }
    }
}

pub open spec fn spec_count_outdated(recs: Seq<OutdatedInfo>, i: int) -> int
    decreases i,
{
    if i <= 0 {
        0
    } else {
        spec_count_outdated(recs, i - 1) + if recs[i - 1].outdated {
            1int
        } else {
            0int
        }
    }
}

pub open spec fn spec_count_warnings(recs: Seq<OutdatedInfo>, i: int) -> int
    decreases i,
{
    if i <= 0 {
        0
    } else {
        spec_count_warnings(recs, i - 1) + if !recs[i - 1].exists_on_remote {
            1int
        } else {
            0int
        }
    }
}

/// The whole report: a header outside limited output, the body lines, and
/// a trailing summary with the outdated count and the warnings section.
pub open spec fn spec_outdated_report(
    recs: Seq<OutdatedInfo>,
    limit_output: bool,
    list_output: bool,
) -> Seq<char> {
    let n = recs.len() as int;
    let header = if !limit_output {
        "Outdated Packages\n"@ + if !list_output {
            " Output is package name | current version | available version | pinned?\n\n"@
        } else {
            Seq::<char>::empty()
        }
    } else {
        Seq::<char>::empty()
    };
    let footer = if !limit_output {
        "\nRocolatey has determined "@ + spec_u64_string(spec_count_outdated(recs, n))
            + " package(s) are outdated.\n"@ + if spec_count_warnings(recs, n) > 0 {
            " "@ + spec_u64_string(spec_count_warnings(recs, n)) + " package(s) had warnings.\n"@
                + "Warnings:\n"@ + spec_warning_lines(recs, n)
        } else {
            Seq::<char>::empty()
        }
    } else {
        Seq::<char>::empty()
    };
    header + spec_report_lines(recs, n, list_output) + footer
}

fn bool_str(b: bool) -> (r: &'static str)
    ensures
        r@ == spec_bool_string(b),
{
    if b {
        "true"
    } else {
        "false"
    }
}

/// Render the sorted report rows.
pub fn render_outdated_report(records: &Vec<OutdatedInfo>, limit_output: bool, list_output: bool)
    -> (r: String)
    ensures
        r@ == spec_outdated_report(records@, limit_output, list_output),
{
    let n = records.len();
    let mut res = String::new();
    if !limit_output {
        res.append("Outdated Packages\n");
        if !list_output {
            res.append(" Output is package name | current version | available version | pinned?\n\n");
        }
    }
    let ghost header = res@;
    let mut warnings = String::new();
    let mut outdated_packages: usize = 0;
    let mut warning_count: usize = 0;
    let mut i: usize = 0;
    proof {
        assert(res@ =~= header + spec_report_lines(records@, 0, list_output));
        assert(warnings@ =~= spec_warning_lines(records@, 0));
    }
    while i < n
        invariant
            i <= n,
            n == records@.len(),
            res@ == header + spec_report_lines(records@, i as int, list_output),
            warnings@ == spec_warning_lines(records@, i as int),
            outdated_packages == spec_count_outdated(records@, i as int),
            warning_count == spec_count_warnings(records@, i as int),
            outdated_packages <= i,
            warning_count <= i,
        decreases n - i,
    {
        if records[i].outdated {
            outdated_packages += 1;
        }
        if list_output {
            res.append(records[i].id.as_str());
            res.append(" ");
        } else {
            res.append(records[i].id.as_str());
            res.append("|");
            res.append(records[i].local_version.as_str());
            res.append("|");
            res.append(records[i].remote_version.as_str());
            res.append("|");
            res.append(bool_str(records[i].pinned));
            res.append("\n");
        }
        if !records[i].exists_on_remote {
            warning_count += 1;
            warnings.append(" - ");
            warnings.append(records[i].id.as_str());
            warnings.append("\n");
        }
        proof {
            assert(res@ =~= header + spec_report_lines(records@, i as int + 1, list_output));
            assert(warnings@ =~= spec_warning_lines(records@, i as int + 1));
        }
        i += 1;
    }
    if !limit_output {
        res.append("\nRocolatey has determined ");
        let count = u64_to_string(outdated_packages as u64);
        res.append(count.as_str());
        res.append(" package(s) are outdated.\n");
        if warning_count > 0 {
            res.append(" ");
            let wcount = u64_to_string(warning_count as u64);
            res.append(wcount.as_str());
            res.append(" package(s) had warnings.\n");
            res.append("Warnings:\n");
            res.append(warnings.as_str());
        }
    }
    proof {
        assert(res@ =~= spec_outdated_report(records@, limit_output, list_output));
    }
    res
}

} // verus!
