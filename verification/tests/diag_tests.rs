use lang_front::errors::Diag;
use lang_front::scanner::{Category, Word};
use lang_front::source_map::{BytePos, Loc, Pos, SourceFile, Span};

fn word(category: Category, start: usize, end: usize) -> Word {
    Word { category, lexeme: Span { start: BytePos(start), end: BytePos(end) } }
}

#[test]
fn location_is_where_the_offending_text_begins() {
    let span = Span { start: BytePos(4), end: BytePos(9) };
    assert_eq!(BytePos(4), Diag::InvalidDigit { invalid_span: span }.location());
    assert_eq!(BytePos(5), Diag::MissingExponentDigits { exp_pos: BytePos(5) }.location());
    assert_eq!(
        BytePos(6),
        Diag::MissingTerminatingStringMark { str_start_pos: BytePos(6), eol_pos: BytePos(8) }
            .location()
    );
    assert_eq!(BytePos(7), Diag::UnknownCharacter { pos: BytePos(7) }.location());
    assert_eq!(
        BytePos(10),
        Diag::ExpectedWord { expected: Category::Semi, got: word(Category::Let, 10, 13) }
            .location()
    );
    assert_eq!(
        BytePos(11),
        Diag::ExpectedOneOf { expected: vec![Category::Int], got: word(Category::Let, 11, 14) }
            .location()
    );
    assert_eq!(BytePos(0), Diag::TooManyErrors.location());
    assert_eq!(BytePos(0), Diag::UnexpectedEndOfFile.location());
    assert_eq!(
        BytePos(0),
        Diag::ExpectedWord { expected: Category::Semi, got: Word::eof() }.location()
    );
}

#[test]
fn messages_are_fixed_for_each_kind() {
    assert_eq!("too many errors", Diag::TooManyErrors.message());
    assert_eq!(
        "invalid digit",
        Diag::InvalidDigit { invalid_span: Span::dummy() }.message()
    );
    assert_eq!(
        "missing exponent digits for decimal literal",
        Diag::MissingExponentDigits { exp_pos: BytePos(1) }.message()
    );
    assert_eq!(
        "missing terminating quotation mark for string literal",
        Diag::MissingTerminatingStringMark { str_start_pos: BytePos(0), eol_pos: BytePos(4) }
            .message()
    );
    assert_eq!("unknown character", Diag::UnknownCharacter { pos: BytePos(0) }.message());
    assert_eq!("unexpected end of file", Diag::UnexpectedEndOfFile.message());
}

#[test]
fn messages_name_what_was_expected_and_what_was_found() {
    assert_eq!(
        "expected `;`, but got `<end of file>`",
        Diag::ExpectedWord { expected: Category::Semi, got: Word::eof() }.message()
    );
    assert_eq!(
        "expected identifier, but got numeric integer constant",
        Diag::ExpectedWord {
            expected: Category::Ident,
            got: word(Category::NumConst { is_float: false }, 0, 1),
        }
        .message()
    );
    assert_eq!(
        "expected one of `bool`, `int`, `float`, `str`, but got identifier",
        Diag::ExpectedOneOf {
            expected: vec![Category::Bool, Category::Int, Category::Float, Category::Str],
            got: word(Category::Ident, 0, 1),
        }
        .message()
    );
    assert_eq!(
        "expected one of `{`, but got `}`",
        Diag::ExpectedOneOf {
            expected: vec![Category::OpenCurly],
            got: word(Category::CloseCurly, 0, 1),
        }
        .message()
    );
    assert_eq!(
        "expected one of , but got string literal",
        Diag::ExpectedOneOf { expected: vec![], got: word(Category::StrLit, 0, 2) }.message()
    );
}

#[test]
fn every_category_has_its_name() {
    let names = [
        (Category::OpenParen, "`(`"),
        (Category::CloseParen, "`)`"),
        (Category::OpenCurly, "`{`"),
        (Category::CloseCurly, "`}`"),
        (Category::Ne, "`!=`"),
        (Category::Eq, "`=`"),
        (Category::EqEq, "`==`"),
        (Category::Ge, "`>=`"),
        (Category::Gt, "`>`"),
        (Category::Le, "`<=`"),
        (Category::Lt, "`<`"),
        (Category::Star, "`*`"),
        (Category::Slash, "`/`"),
        (Category::Plus, "`+`"),
        (Category::Minus, "`-`"),
        (Category::Not, "`!`"),
        (Category::Comma, "`,`"),
        (Category::Colon, "`:`"),
        (Category::Semi, "`;`"),
        (Category::Program, "`program`"),
        (Category::Let, "`let`"),
        (Category::Int, "`int`"),
        (Category::Bool, "`bool`"),
        (Category::Float, "`float`"),
        (Category::Str, "`str`"),
        (Category::If, "`if`"),
        (Category::Else, "`else`"),
        (Category::While, "`while`"),
        (Category::Ident, "identifier"),
        (Category::NumConst { is_float: false }, "numeric integer constant"),
        (Category::NumConst { is_float: true }, "numeric floating point constant"),
        (Category::StrLit, "string literal"),
        (Category::Eof, "`<end of file>`"),
    ];
    for (category, name) in names {
        assert_eq!(name, category.describe());
    }
}

#[test]
fn a_diagnostic_is_shown_at_its_line_and_column() {
    let file = SourceFile::new("test".into(), "program a\nlet i: int;\n".into());
    let diag = Diag::ExpectedWord { expected: Category::Semi, got: word(Category::Let, 10, 13) };
    let loc = file.lookup_source_location(diag.location()).unwrap();
    assert_eq!(Loc { line: 2, col: BytePos(0) }, loc);
    assert_eq!(
        "2:0: error: expected `;`, but got `let`",
        format!("{}:{}: error: {}", loc.line, loc.col.0, diag.message())
    );
}

#[test]
fn every_line_start_within_the_text_is_column_zero_of_its_line() {
    let file = SourceFile::new("t".into(), "a\n\nbc\r\nd\n é\nlast".into());
    let lines = file.lines().clone();
    assert_eq!(
        vec![BytePos(0), BytePos(2), BytePos(3), BytePos(7), BytePos(9), BytePos(13), BytePos(17)],
        lines
    );
    for (i, start) in lines.iter().enumerate().take(lines.len() - 1) {
        assert_eq!(
            Some(Loc { line: i + 1, col: BytePos(0) }),
            file.lookup_source_location(*start)
        );
        assert_eq!(Some(i), file.lookup_line_index(*start));
    }
    assert_eq!(Some(Loc { line: 5, col: BytePos(3) }), file.lookup_source_location(BytePos(12)));
    assert_eq!(Some(Loc { line: 6, col: BytePos(3) }), file.lookup_source_location(BytePos(16)));
    assert_eq!(None, file.lookup_source_location(BytePos(17)));
    assert_eq!(None, file.lookup_line_index(BytePos(usize::MAX)));
}

#[test]
fn a_line_start_at_the_end_of_the_text_is_on_no_line() {
    let file = SourceFile::new("t".into(), "a\n".into());
    assert_eq!(vec![BytePos(0), BytePos(2), BytePos(2)], file.lines().clone());
    assert_eq!(Some(Loc { line: 1, col: BytePos(1) }), file.lookup_source_location(BytePos(1)));
    assert_eq!(None, file.lookup_source_location(BytePos(2)));
}

#[test]
fn the_empty_text_has_no_line() {
    let file = SourceFile::new("t".into(), "".into());
    assert_eq!(vec![BytePos(0), BytePos(0)], file.lines().clone());
    assert_eq!(None, file.lookup_line_index(BytePos(0)));
    assert_eq!("", file.span_to_snippet(Span::dummy()));
    assert_eq!("", file.src());
    assert_eq!("t", file.name());
}

#[test]
fn snippets_are_cut_at_character_boundaries() {
    let file = SourceFile::new("t".into(), "aé€😀z".into());
    let cut = |start, end| {
        file.span_to_snippet(Span { start: BytePos(start), end: BytePos(end) })
    };
    assert_eq!("a", cut(0, 1));
    assert_eq!("é", cut(1, 3));
    assert_eq!("€", cut(3, 6));
    assert_eq!("😀", cut(6, 10));
    assert_eq!("z", cut(10, 11));
    assert_eq!("aé€😀z", cut(0, 11));
    assert_eq!("", cut(11, 11));
}

#[test]
fn positions_add_and_subtract() {
    assert_eq!(BytePos(7), BytePos(3) + BytePos(4));
    assert_eq!(BytePos(3), BytePos(7) - BytePos(4));
    assert_eq!(BytePos(0), BytePos::dummy());
    assert_eq!(BytePos(5), <BytePos as Pos>::from_usize(5));
    assert_eq!(5, BytePos(5).to_usize());
}
