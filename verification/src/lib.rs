//! Extraction of BibTeX references from a MathSciNet results page.
//!
//! The page is searched for preformatted citation blocks, each block is matched
//! against the `AUTHOR = {..}` / `TITLE = {..}` field pair, and the matching
//! blocks become an ordered list of references that can be listed and selected.

pub mod display;
pub mod fields;
pub mod page;
pub mod query;
pub mod reference;
pub mod selection;
pub mod text;
