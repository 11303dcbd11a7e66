//! Release-notes aggregation: timeframe grammar and resolution, label
//! classification, paginated collection and composition of the report tree.

pub mod config;
pub mod error;
pub mod labels;
pub mod report;
pub mod template;
pub mod timeframe;
