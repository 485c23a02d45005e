//! What the `#[metrics]` attribute generates for a type, as plans that say which
//! code is written for which field.

pub mod field;
pub mod flags;
pub mod writes;
pub mod laws;
pub mod structs;
pub mod value;
pub mod descriptor;
pub mod sample;
pub mod names;
