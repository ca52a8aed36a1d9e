use lang_front::source_map::{BytePos, SourceFile};
use lang_front::syntax::parser::{ParseError, Parser};
use lang_front::syntax::scanner::{Category, ScanError, Scanner};
use lang_front::syntax::Error;
use std::io;
use std::rc::Rc;

#[test]
fn scan_errors_have_fixed_messages() {
    assert_eq!(
        "missing exponent digits for decimal literal",
        ScanError::MissingExponentDigits { exp_pos: BytePos(0) }.message()
    );
    assert_eq!(
        "missing terminating quotation mark for string literal",
        ScanError::MissingTerminatingStringMark { str_start_pos: BytePos(0), eol_pos: BytePos(1) }
            .message()
    );
    assert_eq!("unknown character", ScanError::UnknownCharacter { pos: BytePos(0) }.message());
    assert_eq!("expected closing delimiter", ParseError::ExpectedClosingDelim.message());
}

#[test]
fn an_error_has_the_message_of_the_error_within() {
    assert_eq!("too many errors", Error::TooManyErrors.message());
    assert_eq!(
        "unknown character",
        Error::from(ScanError::UnknownCharacter { pos: BytePos(3) }).message()
    );
    assert_eq!(
        "expected closing delimiter",
        Error::from(ParseError::ExpectedClosingDelim).message()
    );
    let io_error = io::Error::new(io::ErrorKind::NotFound, "no such file");
    assert_eq!("no such file", Error::Io(io_error).message());
}

#[test]
fn conversion_keeps_the_error_within() {
    match Error::from(ScanError::MissingExponentDigits { exp_pos: BytePos(7) }) {
        Error::Scan(ScanError::MissingExponentDigits { exp_pos }) => {
            assert_eq!(BytePos(7), exp_pos)
        }
        other => panic!("not a scan error: {:?}", other),
    }
    assert!(matches!(
        Error::from(ParseError::ExpectedClosingDelim),
        Error::Parse(ParseError::ExpectedClosingDelim)
    ));
}

#[test]
fn unknown_character_is_a_scan_error() {
    let file = Rc::new(SourceFile::new("test".into(), "read # é write".into()));
    let mut scanner = Scanner::new(file);
    assert_eq!(Category::Read, scanner.next_word().unwrap().category);
    assert_eq!(
        ScanError::UnknownCharacter { pos: BytePos(5) },
        scanner.next_word().unwrap_err()
    );
    assert_eq!(
        ScanError::UnknownCharacter { pos: BytePos(7) },
        scanner.next_word().unwrap_err()
    );
    assert_eq!(Category::Write, scanner.next_word().unwrap().category);
    assert_eq!(Category::Eof, scanner.next_word().unwrap().category);
}

#[test]
fn a_parser_is_made_from_a_scanner() {
    let file = Rc::new(SourceFile::new("test".into(), "x".into()));
    let _parser = Parser::new(Scanner::new(file));
}
