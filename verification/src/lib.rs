//! Core of a network-speed-tracking report generator.
//!
//! The library covers the data pipeline: selecting monthly data files by
//! name range, parsing newline-delimited JSON measurement records, filtering
//! records by date, building chart series, computing order statistics, and
//! rendering the report fragments. File and process I/O live outside the
//! library; callers hand in plain values (lines, names, dates) and receive
//! plain values back.
//!
//! Metric values are fixed-point integers in thousandths of a unit
//! (milli-units), so that every computation is exact and verifiable.

pub mod chart;
pub mod date;
pub mod files;
pub mod json;
pub mod numeric;
pub mod record;
pub mod render;
pub mod setup;
pub mod stats;
pub mod text;
