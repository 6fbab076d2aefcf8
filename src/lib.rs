//! Per-entry disk usage: size classes, exclusion decisions, degrade-to-zero
//! aggregation of walked entries, and the deterministic sorted report.
pub mod size_class;
pub mod text_order;
pub mod exclusion;
pub mod aggregate;
pub mod report;
pub mod render;
