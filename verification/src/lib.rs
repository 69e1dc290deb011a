//! One-level project listings: separator handling, stable identifiers for
//! paths, and the assembly of a listing from what a directory walk found.

pub mod error;
pub mod identifier;
pub mod path_text;
pub mod project;
