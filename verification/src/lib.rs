//! Heuristic extraction of calendar events from unstructured HTML pages.
//!
//! The crate walks a parsed document tree, decides which textual regions
//! form one event, recognises the event's date with a set of prioritised
//! date grammars, and returns the events as plain records.

pub mod date_extraction;
pub mod dates;
pub mod dom;
pub mod extractors;
pub mod html;
pub mod models;
pub mod normalize;
