//! Data model of the library: packages, feeds, and the records of the
//! outdated-package report.

use vstd::prelude::*;

pub mod bulk;
pub mod local;
pub mod nuget2;
pub mod nuget3;
pub mod remote;
pub mod semver;
pub mod strutil;
pub mod xml;

verus! {

/// The tag the nuspec scanner is currently inside of.
#[derive(Clone, Copy, PartialEq, Eq, Structural, Debug)]
pub enum NuspecTag {
    Null,
    Id,
    Version,
}

/// How a feed is spoken to.  Starts `Unknown` and is resolved at most once.
#[derive(Clone, Copy, PartialEq, Eq, Structural, Debug)]
pub enum FeedType {
    Unknown,
    LocalFileSystem,
    NuGetV2,
    NuGetV3,
}

/// A reference to another package, as a nuspec declares it: id and version
/// range only.
#[derive(Clone, Debug)]
pub struct Dependency {
    pub id: String,
    pub version: String,
}

/// A package, either installed locally or described by a feed response.
/// Identity is its `id`, compared case-insensitively; the `version` string
/// stays opaque until versions are compared.
#[derive(Clone, Debug)]
pub struct Package {
    pub id: String,
    pub version: String,
    pub pinned: bool,
    pub dependencies: Option<Vec<Dependency>>,
}

impl Package {
    pub fn id(&self) -> (r: &str)
        ensures
            r@ == self.id@,
    {
        self.id.as_str()
    }

    pub fn version(&self) -> (r: &str)
        ensures
            r@ == self.version@,
    {
        self.version.as_str()
    }

    pub fn pinned(&self) -> (r: bool)
        ensures
            r == self.pinned,
    {
        self.pinned
    }
}

/// A configured package source.
#[derive(Clone, Debug)]
pub struct Feed {
    pub name: String,
    pub url: String,
    pub credential: Option<Credential>,
    pub proxy: Option<ProxySettings>,
    pub disabled: bool,
    pub certificate: Option<String>,
    pub bypass_proxy: bool,
    pub self_service: bool,
    pub admin_only: bool,
    pub priority: i64,
    pub feed_type: FeedType,
    pub service_index: Option<nuget3::NuGetV3Index>,
}

#[derive(Clone, Debug)]
pub struct Credential {
    pub user: String,
    pub pass: String,
}

#[derive(Clone, Debug)]
pub struct ProxySettings {
    pub url: String,
    pub credential: Option<Credential>,
}

/// One row of the outdated-package report: a local package that is either
/// outdated or (when unfound packages are reported) missing from every feed.
#[derive(Clone, Debug)]
pub struct OutdatedInfo {
    pub id: String,
    pub local_version: String,
    pub remote_version: String,
    pub pinned: bool,
    pub outdated: bool,
    pub exists_on_remote: bool,
}

} // verus!
