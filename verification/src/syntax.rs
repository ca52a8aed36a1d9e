//! Syntax analysis with separate errors for scanning and for parsing: a scanner whose words
//! name their delimiters, and the error type that gathers what can go wrong.

pub mod errors;
pub mod parser;
pub mod scanner;

pub use self::errors::Error;
