//! A linter for cell-based notebook documents.
//!
//! A notebook is an ordered sequence of code and prose cells. The library
//! models such documents, runs a fixed registry of style rules over them,
//! and aggregates the rules' findings: the document model in [`notebook`],
//! the rules, registry and engine in [`checks`], the configuration values in
//! [`config`], and the text helpers they share in [`text`].

pub mod checks;
pub mod config;
pub mod notebook;
pub mod text;
