//! Grammar-driven front end of an error-tolerant recursive-descent parser.
//!
//! The crate turns a finite stream of lexical tokens into a lossless
//! structural event log from which a concrete syntax tree can later be
//! materialized.  Parsing never aborts: malformed input is wrapped in
//! error nodes and every token ends up in the log exactly once.

pub mod entry;
pub mod event;
pub mod grammar;
pub mod laws;
pub mod marker;
pub mod parser;
pub mod reparse;
pub mod syntax_kind;
pub mod token_set;
