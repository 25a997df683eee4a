//! Hierarchical page index over long documents.
//!
//! A flat, ordered list of section descriptors (a structure code, a title
//! and a start page each) becomes a tree of closed page ranges
//! (`builder`, `tree`); the sections that a reasoning service finds
//! relevant to a query are filtered, ranked and sliced back into page text
//! (`search`, `document`). The service itself, files and the command line
//! live outside this crate; what is decided around them is here: prompts,
//! the normalization of answers (`response`), the choice of stored format
//! (`persistence`), settings checks (`config`, `llm`).

pub mod builder;
pub mod config;
pub mod dataset;
pub mod document;
pub mod error;
pub mod evaluation;
pub mod indexer;
pub mod llm;
pub mod persistence;
pub mod prompts;
pub mod response;
pub mod search;
pub mod text;
pub mod tree;
