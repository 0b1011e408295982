//! A parser for a small SQL dialect.
//!
//! Source text is tokenized and parsed by recursive descent into a typed
//! abstract syntax tree covering three statement classes: table definition
//! (`Seed`), row insertion (`Sow`) and row retrieval with an optional filter
//! (`Sample`), plus comments. `parser::tree::Tree::parse` is the entry point.

pub mod ast;
pub mod error;
pub mod parser;
pub mod text;
