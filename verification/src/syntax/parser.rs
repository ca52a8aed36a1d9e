//! A parser that holds its scanner, and the error of parsing.

use crate::syntax::scanner::Scanner;
use vstd::prelude::*;
use vstd::string::*;

verus! {

/// What went wrong in parsing.
#[derive(Debug, PartialEq, Eq, Structural)]
pub enum ParseError {
    ExpectedClosingDelim,
}

impl ParseError {
    /// The message of the error.
    pub open spec fn message_text(&self) -> Seq<char> {
        "expected closing delimiter"@
    }

    /// The message of the error.
    pub fn message(&self) -> (text: String)
        ensures
            text@ == self.message_text(),
    {
        match self {
            ParseError::ExpectedClosingDelim => "expected closing delimiter".to_owned(),
        }
    }
}

/// A parser over the words of a scanner.
pub struct Parser {
    scanner: Scanner,
}

impl Parser {
    /// The scanner that the parser draws on.
    pub closed spec fn scanner_view(&self) -> Scanner {
        self.scanner
    }

    /// A parser that draws on `scanner`.
    pub fn new(scanner: Scanner) -> (parser: Parser)
        ensures
            parser.scanner_view() == scanner,
    {
        Parser { scanner }
    }
}

} // verus!
