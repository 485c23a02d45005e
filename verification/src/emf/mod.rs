//! CloudWatch embedded metric format.

pub mod lines;
pub mod metric;
pub mod encoded;
pub mod model;
pub mod format;
pub mod laws;
pub mod refusals;
pub mod skipped;
pub mod valid;
pub mod acceptance;
pub mod published;
pub mod verdicts;
