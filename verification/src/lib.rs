//! The front end of a compiler for a small imperative language: a source map, a scanner that
//! recovers from lexical errors, a diagnostics channel and a recursive-descent parser.

pub mod ast;
pub mod codemap;
pub mod diagnostics;
pub mod errors;
pub mod grammar;
pub mod lexis;
pub mod parser;
pub mod scanner;
pub mod source_map;
pub mod syntax;
