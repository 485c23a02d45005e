//! Metric entries, their units and values, and the formats they are written in.
//!
//! The traits that users implement have ghost functions that say what their methods return, such as
//! `items` of an entry. Verified implementations define them; in ordinary Rust they can be left out.

pub mod aggregate;
pub mod assoc;
pub mod derive;
pub mod conversions;
pub mod descriptor;
pub mod dimension;
pub mod double_laws;
pub mod emf;
pub mod entry;
pub mod flags;
pub mod float;
pub mod format;
pub mod formatter;
pub mod grammar;
pub mod guard;
pub mod index;
pub mod json;
pub mod json_laws;
pub mod listing;
pub mod local;
pub mod nested;
pub mod nested_laws;
pub mod order;
pub mod otel;
pub mod sampling;
pub mod test_util;
pub mod text;
pub mod traits;
pub mod type_ids;
pub mod unit;
pub mod unit_tags;
pub mod validate;
pub mod value;
pub mod weigh;
pub mod with_unit;
