use lang_front::errors::{Diag, Emitter, Handler};
use lang_front::scanner::{is_ident_body, is_whitespace, Category, Scanner, Word, WordStream};
use lang_front::source_map::{BytePos, SourceFile, Span};
use std::cell::RefCell;
use std::rc::Rc;

/// A policy that keeps what it is handed.
struct Recorder {
    seen: RefCell<Vec<Diag>>,
    answer: bool,
}

impl Recorder {
    fn new(answer: bool) -> Recorder {
        Recorder { seen: RefCell::new(Vec::new()), answer }
    }
}

impl Emitter for Recorder {
    fn emit(&self, diag: Diag) -> bool {
        self.seen.borrow_mut().push(diag);
        self.answer
    }
}

fn scanner_over(src: &str) -> (Scanner, Rc<SourceFile>) {
    let file = Rc::new(SourceFile::new("test".into(), src.into()));
    (Scanner::new(file.clone()), file)
}

fn span(start: usize, end: usize) -> Span {
    Span { start: BytePos(start), end: BytePos(end) }
}

#[test]
fn unknown_character_between_words_is_passed_over() {
    let handler = Handler::with_emitter(Recorder::new(true));
    let (scanner, file) = scanner_over("abc $ def");
    let mut stream = WordStream::new(scanner, &handler);

    let first = stream.next();
    assert_eq!(Word { category: Category::Ident, lexeme: span(0, 3) }, first);
    assert_eq!("abc", file.span_to_snippet(first.lexeme));

    let second = stream.next();
    assert_eq!(Word { category: Category::Ident, lexeme: span(6, 9) }, second);
    assert_eq!("def", file.span_to_snippet(second.lexeme));

    assert_eq!(Word::eof(), stream.next());
    assert_eq!(Word::eof(), stream.next());
    assert_eq!(Word::eof().lexeme, Span::dummy());
}

fn take_seen(handler: Handler<Recorder>) -> Vec<Diag> {
    handler.into_emitter().seen.into_inner()
}

#[test]
fn every_lexical_error_is_reported_once_and_in_order() {
    let handler = Handler::with_emitter(Recorder::new(true));
    let (scanner, _) = scanner_over("1e $ 2x \"open\n ok");
    let mut stream = WordStream::new(scanner, &handler);

    let word = stream.next();
    assert_eq!(Category::Ident, word.category);
    assert_eq!(span(15, 17), word.lexeme);
    assert_eq!(Category::Eof, stream.next().category);
    drop(stream);

    let wanted = vec![
        Diag::MissingExponentDigits { exp_pos: BytePos(1) },
        Diag::UnknownCharacter { pos: BytePos(3) },
        Diag::InvalidDigit { invalid_span: span(6, 7) },
        Diag::MissingTerminatingStringMark { str_start_pos: BytePos(8), eol_pos: BytePos(13) },
    ];
    assert_eq!(wanted, take_seen(handler));
}

#[test]
fn the_answer_of_the_policy_does_not_stop_the_stream() {
    let handler = Handler::with_emitter(Recorder::new(false));
    let (scanner, _) = scanner_over("? ? x");
    let mut stream = WordStream::new(scanner, &handler);
    assert_eq!(Category::Ident, stream.next().category);
    assert_eq!(Category::Eof, stream.next().category);
    drop(stream);
    assert_eq!(2, take_seen(handler).len());
}

#[test]
fn report_returns_the_answer_of_the_policy() {
    let stop = Handler::with_emitter(Recorder::new(false));
    assert!(!stop.report(Diag::TooManyErrors));
    let go_on = Handler::with_emitter(Recorder::new(true));
    assert!(go_on.report(Diag::UnexpectedEndOfFile));
    let ignoring = Handler::with_ignoring_emitter();
    assert!(ignoring.report(Diag::TooManyErrors));
    assert_eq!(vec![Diag::TooManyErrors], take_seen(stop));
}

#[test]
fn unknown_character_of_several_bytes_is_passed_over_whole() {
    let (mut scanner, file) = scanner_over("é+x");
    assert_eq!(Err(Diag::UnknownCharacter { pos: BytePos(0) }), scanner.next_word());
    let plus = scanner.next_word().unwrap();
    assert_eq!(Word { category: Category::Plus, lexeme: span(2, 3) }, plus);
    let x = scanner.next_word().unwrap();
    assert_eq!("x", file.span_to_snippet(x.lexeme));
    assert_eq!(Ok(Word::eof()), scanner.next_word());
}

#[test]
fn white_space_of_any_script_is_skipped() {
    let (mut scanner, _) = scanner_over("\u{a0}\t\r\n\u{2003}a\u{3000}");
    let a = scanner.next_word().unwrap();
    assert_eq!(Word { category: Category::Ident, lexeme: span(8, 9) }, a);
    assert_eq!(Ok(Word::eof()), scanner.next_word());
}

#[test]
fn white_space_is_told_from_other_characters() {
    assert!(is_whitespace(Some(' ')));
    assert!(is_whitespace(Some('\n')));
    assert!(is_whitespace(Some('\u{a0}')));
    assert!(!is_whitespace(Some('a')));
    assert!(!is_whitespace(Some('_')));
    assert!(!is_whitespace(None));
}

#[test]
fn identifier_characters_are_letters_digits_and_underscore() {
    for c in ['a', 'z', 'A', 'Z', '0', '9', '_'] {
        assert!(is_ident_body(Some(c)));
    }
    for c in ['-', ' ', 'é', '"', '{', '\u{0}'] {
        assert!(!is_ident_body(Some(c)));
    }
    assert!(!is_ident_body(None));
}

#[test]
fn string_literal_may_hold_any_characters_but_quote_and_line_feed() {
    let (mut scanner, file) = scanner_over("\"é ü\tß\" \"a\nb\"");
    let s = scanner.next_word().unwrap();
    assert_eq!(Category::StrLit, s.category);
    assert_eq!("\"é ü\tß\"", file.span_to_snippet(s.lexeme));
    assert_eq!(
        Err(Diag::MissingTerminatingStringMark {
            str_start_pos: BytePos(11),
            eol_pos: BytePos(13),
        }),
        scanner.next_word()
    );
    assert_eq!(Category::Ident, scanner.next_word().unwrap().category);
    assert_eq!(
        Err(Diag::MissingTerminatingStringMark {
            str_start_pos: BytePos(15),
            eol_pos: BytePos(16),
        }),
        scanner.next_word()
    );
    assert_eq!(Ok(Word::eof()), scanner.next_word());
}

#[test]
fn numbers_take_point_exponent_and_sign() {
    let (mut scanner, file) = scanner_over("7 7. 7.5 .5 1e9 1E-2 1.e+3 1e 1e+ 1.5.2 9a1 9_");
    let mut seen = Vec::new();
    loop {
        match scanner.next_word() {
            Ok(word) if word.category == Category::Eof => break,
            Ok(word) => seen.push(format!(
                "{:?} {}",
                word.category,
                file.span_to_snippet(word.lexeme)
            )),
            Err(diag) => seen.push(format!("{:?}", diag)),
        }
    }
    let wanted = vec![
        "NumConst { is_float: false } 7",
        "NumConst { is_float: true } 7.",
        "NumConst { is_float: true } 7.5",
        "UnknownCharacter { pos: BytePos(9) }",
        "NumConst { is_float: false } 5",
        "NumConst { is_float: true } 1e9",
        "NumConst { is_float: true } 1E-2",
        "NumConst { is_float: true } 1.e+3",
        "MissingExponentDigits { exp_pos: BytePos(28) }",
        "MissingExponentDigits { exp_pos: BytePos(31) }",
        "NumConst { is_float: true } 1.5",
        "UnknownCharacter { pos: BytePos(37) }",
        "NumConst { is_float: false } 2",
        "InvalidDigit { invalid_span: Span { start: BytePos(41), end: BytePos(43) } }",
        "InvalidDigit { invalid_span: Span { start: BytePos(45), end: BytePos(46) } }",
    ];
    assert_eq!(wanted, seen);
}

#[test]
fn empty_text_gives_end_of_file_at_once() {
    let (mut scanner, _) = scanner_over("");
    assert_eq!(Ok(Word::eof()), scanner.next_word());
    assert_eq!(Ok(Word::eof()), scanner.next_word());
    let (mut blank, _) = scanner_over(" \n\t ");
    assert_eq!(Ok(Word::eof()), blank.next_word());
}
