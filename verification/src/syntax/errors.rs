//! The errors of syntax analysis.

use crate::syntax::parser::ParseError;
use crate::syntax::scanner::ScanError;
use vstd::prelude::*;
use vstd::std_specs::convert::FromSpecImpl;
use vstd::string::*;

verus! {

/// `std::io::Error`, the error of input and output. Nothing is said of what it holds: a
/// value of it is carried through unopened.
#[verifier::external_type_specification]
#[verifier::external_body]
pub struct ExIoError(std::io::Error);

/// What went wrong in syntax analysis.
#[derive(Debug)]
pub enum Error {
    TooManyErrors,
    Io(std::io::Error),
    Scan(ScanError),
    Parse(ParseError),
}

impl From<ScanError> for Error {
    fn from(err: ScanError) -> (error: Error) {
        Error::Scan(err)
    }
}

impl FromSpecImpl<ScanError> for Error {
    open spec fn obeys_from_spec() -> bool {
        true
    }

    open spec fn from_spec(err: ScanError) -> Error {
        Error::Scan(err)
    }
}

impl From<ParseError> for Error {
    fn from(err: ParseError) -> (error: Error) {
        Error::Parse(err)
    }
}

impl FromSpecImpl<ParseError> for Error {
    open spec fn obeys_from_spec() -> bool {
        true
    }

    open spec fn from_spec(err: ParseError) -> Error {
        Error::Parse(err)
    }
}

impl Error {
    /// The message of the error: a fixed one for too many errors, and otherwise that of the
    /// error within.
    pub fn message(&self) -> (text: String)
        ensures
            match self {
                Error::TooManyErrors => text@ == "too many errors"@,
                Error::Io(err) => to_string_from_display_ensures::<std::io::Error>(err, text),
                Error::Scan(err) => text@ == err.message_text(),
                Error::Parse(err) => text@ == err.message_text(),
            },
    {
        match self {
            Error::TooManyErrors => "too many errors".to_owned(),
            Error::Io(err) => err.to_string(),
            Error::Scan(err) => err.message(),
            Error::Parse(err) => err.message(),
        }
    }
}

} // verus!
