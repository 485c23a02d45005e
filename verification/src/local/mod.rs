//! A format for people to read while they develop.

pub mod percentile;

pub mod pretty;
pub mod tree;
pub mod collect;
pub mod output;
pub mod format;
pub mod laws;
