//! Time-series storage, query and chart rendering for a small fleet-monitoring
//! collector: day partitions, date ranges, merged queries, series grouping and
//! SVG charts.

pub mod text;
pub mod errors;
pub mod calendar;
pub mod clock;
pub mod date_range;
pub mod record;
pub mod merge;
pub mod reader;
pub mod values;
pub mod chart;
pub mod grouping;
pub mod svg;
pub mod render;
pub mod dashboards;
pub mod query;
pub mod routes;
pub mod ingest;
pub mod pages;
pub mod config;
pub mod client;
pub mod probes;
