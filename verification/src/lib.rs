//! Verified core of the `igrok` usage report, model catalog expansion and
//! telemetry settings switch.

pub mod binary64;
pub mod calendar;
pub mod dev_catalog;
pub mod json;
pub mod order;
pub mod telemetry;
pub mod text;
pub mod usage;
pub mod usage_ingest;
pub mod usage_prices;
pub mod usage_format;
pub mod usage_table;
