//! Configuration of the internal span-export layer. Nothing is ever exported:
//! the configuration keeps its shape and the lifecycle entry points do
//! nothing.

use vstd::prelude::*;

verus! {

/// Static identity of the client emitting telemetry.
#[derive(Clone, Copy, Debug)]
pub struct OtelClientInfo {
    /// Binary name (`grok-pager`) -> `client.name`.
    pub client_name: &'static str,
    /// Front-end client version -> `client.version`.
    pub client_version: &'static str,
    /// Engine build (version + commit) -> `service.version`.
    pub service_version: &'static str,
    /// How the session was launched (`cli`/`headless`/`agent`) -> `app.entrypoint`.
    pub app_entrypoint: &'static str,
}

/// OTLP trace-export transport settings.
#[derive(Clone, Debug, Default)]
pub struct OtelExporterConfig {
    /// Full OTLP traces endpoint URL.
    pub traces_url: String,
    /// `OTEL_EXPORTER_OTLP_HEADERS` pairs.
    pub extra_headers: Vec<(String, String)>,
    /// Batch flush interval; `None` is the SDK default.
    pub export_interval: Option<std::time::Duration>,
    /// Export timeout; `None` is the 10 s default.
    pub timeout: Option<std::time::Duration>,
    /// `false` when `OTEL_TRACES_EXPORTER=none`: spans created, never exported.
    pub enabled: bool,
}

/// Guard kept for API compatibility; dropping it does nothing.
pub struct OtelGuard;

/// Shuts down the export pipeline. There is none, so nothing happens.
pub fn shutdown_otel() {
}

/// The guard for the (absent) export pipeline.
pub fn otel_guard() -> (g: OtelGuard)
    ensures
        g == OtelGuard,
{
    OtelGuard
}

} // verus!
