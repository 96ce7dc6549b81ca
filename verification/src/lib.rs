//! Verified core of a 42-style file header tool: the header template, its
//! fields, comment delimiters, date text, configuration priorities and the
//! editor session decisions.
use vstd::prelude::*;

pub mod config;
pub mod datetime;
pub mod delimiters;
pub mod extension;
pub mod fields;
pub mod header;
pub mod lines;
pub mod session;
pub mod store;
pub mod template;
pub mod text;
pub mod uri;

verus! {

} // verus!
