//! Error reporting configuration. Nothing is ever sent: `init` records the
//! first configuration it is given and hands back an inert guard.

use vstd::prelude::*;

verus! {

/// Per-host config; everything that varies between binaries lives here.
pub struct Config {
    /// Tag `client`, e.g. `"grok-pager"`.
    pub client: &'static str,
    pub client_version: &'static str,
    pub release: &'static str,
    /// When `true`, [`init`] returns an inert guard regardless of `SENTRY_DSN`.
    pub disabled: bool,
}

/// Inert guard standing in for the reporting client's init guard.
pub struct ClientInitGuard;

/// The process-wide reporting scope: the configuration of the first `init`.
pub struct ReportingScope {
    pub config: Option<Config>,
}

impl ReportingScope {
    /// A scope that no `init` has configured yet.
    pub fn new() -> (s: Self)
        ensures
            s.config is None,
    {
        ReportingScope { config: None }
    }
}

/// Records `config` unless a configuration is already recorded (the first
/// one wins) and returns the inert guard.
pub fn init(scope: &mut ReportingScope, config: Config) -> (g: ClientInitGuard)
    ensures
        old(scope).config is Some ==> final(scope).config == old(scope).config,
        old(scope).config is None ==> final(scope).config == Some(config),
        g == ClientInitGuard,
{
    if scope.config.is_none() {
        scope.config = Some(config);
    }
    ClientInitGuard
}

/// Flushes in-flight events. There are none, so nothing happens.
pub fn flush_on_shutdown() {
}

} // verus!
