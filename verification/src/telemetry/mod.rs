//! Telemetry surface: git context for events, the fail-closed settings switch
//! of the external stream, and the inert exporter / error-reporting stubs.

pub mod context;
pub mod external;
pub mod otel_layer;
pub mod sentry;
