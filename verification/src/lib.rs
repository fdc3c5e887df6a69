//! A verified core for a GPU telemetry dashboard.
//!
//! The library turns the loosely formatted text and JSON output of a GPU
//! diagnostic tool into per-device records, and renders those records as a
//! fixed-width, color-coded text table.  All parsing, merging and rendering
//! logic lives here with contracts; process invocation and printing stay
//! outside.

pub mod text;
pub mod num;
pub mod units;
pub mod style;
pub mod snapshot;
pub mod json;
pub mod collect;
pub mod render;
