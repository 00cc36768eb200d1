//! Translation engine for an outliner-flavored markdown dialect.
//!
//! The library builds an in-memory index of documents, evaluates a small
//! boolean query language against it, resolves fuzzy cross-references to
//! canonical document names, and rewrites document text through an ordered
//! sequence of syntax transformations.

pub mod config;
pub mod content;
pub mod favorites;
pub mod frontmatter;
pub mod hiccup;
pub mod journals;
pub mod lines;
pub mod links;
pub mod page;
pub mod query;
pub mod rewrite;
pub mod tables;
pub mod text;
