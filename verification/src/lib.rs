//! Library behind a package-manager companion tool: it reports which locally
//! installed packages are outdated relative to one or more remote package
//! feeds.  The core is the remote feed resolution engine: feed-type
//! negotiation, an adaptive bulk-query protocol, version ordering, and the
//! merge logic that turns raw feed responses into an outdated-package report.

use vstd::prelude::*;

pub mod license;
pub mod roco;

verus! {

/// Process-wide flags of the tool, modelled as an explicit value so that the
/// behaviour that depends on them stays testable: `verbose` drives logging,
/// `require_ssl` drives certificate validation of the transports.
pub struct Settings {
    pub verbose: bool,
    pub require_ssl: bool,
}

impl Settings {
    /// Both flags start disabled: certificate validation is off unless a
    /// caller explicitly enables it, and so is verbose logging.
    pub fn new() -> (r: Settings)
        ensures
            !r.verbose,
            !r.require_ssl,
    {
        Settings { verbose: false, require_ssl: false }
    }
}

pub fn set_ssl_enabled(settings: &mut Settings, enable_ssl: bool)
    ensures
        final(settings).require_ssl == enable_ssl,
        final(settings).verbose == old(settings).verbose,
{
    settings.require_ssl = enable_ssl;
}

pub fn is_ssl_required(settings: &Settings) -> (r: bool)
    ensures
        r == settings.require_ssl,
{
    settings.require_ssl
}

pub fn set_verbose_mode(settings: &mut Settings, verbose: bool)
    ensures
        final(settings).verbose == verbose,
        final(settings).require_ssl == old(settings).require_ssl,
{
    settings.verbose = verbose;
}

pub fn is_verbose_mode(settings: &Settings) -> (r: bool)
    ensures
        r == settings.verbose,
{
    settings.verbose
}

} // verus!
