//! A line-oriented Gherkin (`Feature:` / `Scenario:` / step) parser together
//! with two text renderers for the parsed tree: generic Markdown and the
//! HTML-flavored markup of an issue tracker.
//!
//! Parsing is total: any input text yields a sequence of features, degrading
//! gracefully on malformed input instead of failing.
#![verifier::loop_isolation(false)]

pub mod markdown_formatter;
pub mod parser;
pub mod render;
pub mod text;
pub mod youtrack_formatter;
