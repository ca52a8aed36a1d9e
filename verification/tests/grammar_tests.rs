use lang_front::ast::{BinOp, Block, CallKind, Decl, Expr, Ident, Lit, Name, Program, Stmt, Ty, UnOp};
use lang_front::errors::{Diag, Handler, IgnoringEmitter};
use lang_front::parser::{decimal_value, Parser};
use lang_front::scanner::{Category, Scanner, Word, WordStream};
use lang_front::source_map::{BytePos, SourceFile, Span};
use std::rc::Rc;

fn parser_over<'a>(
    src: &str,
    handler: &'a Handler<IgnoringEmitter>,
) -> Parser<'a, IgnoringEmitter> {
    let file = Rc::new(SourceFile::new("test".into(), src.into()));
    Parser::new(WordStream::new(Scanner::new(file), handler))
}

fn lit(v: u64) -> Expr {
    Expr::Lit(Lit::IntLit(v))
}

fn id(n: u64) -> Ident {
    Ident { name: Name(n) }
}

fn var(n: u64) -> Expr {
    Expr::Ident(id(n))
}

fn bin(op: BinOp, lhs: Expr, rhs: Expr) -> Expr {
    Expr::BinaryOp(op, Box::new(lhs), Box::new(rhs))
}

fn word(category: Category, start: usize, end: usize) -> Word {
    Word { category, lexeme: Span { start: BytePos(start), end: BytePos(end) } }
}

fn expr_of(src: &str) -> Result<Expr, Diag> {
    let handler = Handler::with_ignoring_emitter();
    let mut parser = parser_over(src, &handler);
    parser.parse_expr()
}

#[test]
fn subtraction_leans_to_the_right() {
    assert_eq!(
        Ok(bin(BinOp::Sub, lit(1), bin(BinOp::Sub, lit(2), lit(3)))),
        expr_of("1 - 2 - 3")
    );
    assert_eq!(
        Ok(bin(BinOp::Add, lit(1), bin(BinOp::Sub, lit(2), bin(BinOp::Add, lit(3), lit(4))))),
        expr_of("1 + 2 - 3 + 4")
    );
}

#[test]
fn division_leans_to_the_right() {
    assert_eq!(
        Ok(bin(BinOp::Div, lit(8), bin(BinOp::Div, lit(4), lit(2)))),
        expr_of("8 / 4 / 2")
    );
    assert_eq!(
        Ok(bin(BinOp::Mult, lit(8), bin(BinOp::Div, lit(4), lit(2)))),
        expr_of("8 * 4 / 2")
    );
}

#[test]
fn equality_and_relational_operators_lean_to_the_right() {
    assert_eq!(
        Ok(bin(BinOp::Eq, lit(1), bin(BinOp::Ne, lit(2), lit(3)))),
        expr_of("1 == 2 != 3")
    );
    assert_eq!(
        Ok(bin(BinOp::Lt, lit(1), bin(BinOp::Le, lit(2), bin(BinOp::Gt, lit(3), bin(BinOp::Ge, lit(4), lit(5)))))),
        expr_of("1 < 2 <= 3 > 4 >= 5")
    );
}

#[test]
fn tighter_levels_bind_first() {
    // additive < multiplicative < equality < relational
    assert_eq!(
        Ok(bin(BinOp::Add, lit(1), bin(BinOp::Mult, lit(2), lit(3)))),
        expr_of("1 + 2 * 3")
    );
    assert_eq!(
        Ok(bin(BinOp::Add, bin(BinOp::Mult, lit(1), lit(2)), lit(3))),
        expr_of("1 * 2 + 3")
    );
    assert_eq!(
        Ok(bin(BinOp::Mult, lit(1), bin(BinOp::Eq, lit(2), lit(3)))),
        expr_of("1 * 2 == 3")
    );
    assert_eq!(
        Ok(bin(BinOp::Eq, bin(BinOp::Lt, lit(1), lit(2)), lit(3))),
        expr_of("1 < 2 == 3")
    );
    assert_eq!(
        Ok(bin(BinOp::Mult, Expr::Paren(Box::new(bin(BinOp::Add, lit(1), lit(2)))), lit(3))),
        expr_of("(1 + 2) * 3")
    );
}

#[test]
fn integer_literal_is_taken_modulo_two_to_the_64() {
    assert_eq!(Ok(lit(u64::MAX)), expr_of("18446744073709551615"));
    assert_eq!(Ok(lit(0)), expr_of("18446744073709551616"));
    assert_eq!(Ok(lit(1)), expr_of("18446744073709551617"));
    assert_eq!(Ok(lit(7)), expr_of("0000000000000000000000000007"));
    assert_eq!(12345, decimal_value("12345"));
    assert_eq!(12, decimal_value("1x2"));
    assert_eq!(0, decimal_value(""));
}

#[test]
fn string_literal_loses_its_quotation_marks_only() {
    assert_eq!(Ok(Expr::Lit(Lit::StrLit("".into()))), expr_of("\"\""));
    assert_eq!(Ok(Expr::Lit(Lit::StrLit(" a\\n é ".into()))), expr_of("\" a\\n é \""));
}

#[test]
fn floating_point_literal_keeps_its_text() {
    assert_eq!(Ok(Expr::Lit(Lit::FloatLit("3.14e-2".into()))), expr_of("3.14e-2"));
    assert_eq!(Ok(Expr::Lit(Lit::FloatLit("1.".into()))), expr_of("1."));
}

#[test]
fn factor_fails_at_the_end_of_the_text() {
    assert_eq!(Err(Diag::UnexpectedEndOfFile), expr_of(""));
    assert_eq!(Err(Diag::UnexpectedEndOfFile), expr_of("1 +"));
    assert_eq!(Err(Diag::UnexpectedEndOfFile), expr_of("(1 * "));
}

#[test]
fn factor_fails_on_a_word_that_begins_none() {
    let expected = vec![
        Category::OpenParen,
        Category::StrLit,
        Category::NumConst { is_float: false },
        Category::NumConst { is_float: true },
        Category::Ident,
    ];
    assert_eq!(
        Err(Diag::ExpectedOneOf { expected: expected.clone(), got: word(Category::Semi, 4, 5) }),
        expr_of("1 + ;")
    );
    assert_eq!(
        Err(Diag::ExpectedOneOf { expected, got: word(Category::While, 0, 5) }),
        expr_of("while")
    );
}

#[test]
fn expression_stops_before_what_does_not_belong_to_it() {
    let handler = Handler::with_ignoring_emitter();
    let mut parser = parser_over("1 2 ) x", &handler);
    assert_eq!(Ok(lit(1)), parser.parse_expr());
    assert_eq!(Ok(lit(2)), parser.parse_expr());
    assert_eq!(word(Category::CloseParen, 4, 5), parser.consume());
    assert_eq!(Ok(var(0)), parser.parse_expr());
    assert_eq!(Word::eof(), parser.consume());
    assert_eq!(Word::eof(), parser.consume());
}

#[test]
fn names_count_up_in_the_order_of_first_sight() {
    let handler = Handler::with_ignoring_emitter();
    let mut parser = parser_over("b a b c a d", &handler);
    let mut names = Vec::new();
    for _ in 0..6 {
        names.push(parser.parse_ident());
    }
    assert_eq!(
        vec![Ok(id(0)), Ok(id(1)), Ok(id(0)), Ok(id(2)), Ok(id(1)), Ok(id(3))],
        names
    );
    assert_eq!(
        Err(Diag::ExpectedWord { expected: Category::Ident, got: Word::eof() }),
        parser.parse_ident()
    );
}

#[test]
fn keywords_are_no_identifiers() {
    let handler = Handler::with_ignoring_emitter();
    let mut parser = parser_over("if", &handler);
    assert_eq!(
        Err(Diag::ExpectedWord { expected: Category::Ident, got: word(Category::If, 0, 2) }),
        parser.parse_ident()
    );
}

#[test]
fn every_type_is_parsed() {
    let handler = Handler::with_ignoring_emitter();
    let mut parser = parser_over("bool int float str x", &handler);
    assert_eq!(Ok(Ty::BoolTy), parser.parse_ty());
    assert_eq!(Ok(Ty::IntTy), parser.parse_ty());
    assert_eq!(Ok(Ty::FloatTy), parser.parse_ty());
    assert_eq!(Ok(Ty::StrTy), parser.parse_ty());
    assert_eq!(
        Err(Diag::ExpectedOneOf {
            expected: vec![Category::Bool, Category::Int, Category::Float, Category::Str],
            got: word(Category::Ident, 19, 20),
        }),
        parser.parse_ty()
    );
}

#[test]
fn declaration_fails_at_the_first_word_that_is_out_of_place() {
    let handler = Handler::with_ignoring_emitter();
    assert_eq!(
        Err(Diag::ExpectedWord { expected: Category::Let, got: word(Category::Ident, 0, 1) }),
        parser_over("x: int;", &handler).parse_decl()
    );
    assert_eq!(
        Err(Diag::ExpectedWord { expected: Category::Ident, got: word(Category::Colon, 4, 5) }),
        parser_over("let : int;", &handler).parse_decl()
    );
    assert_eq!(
        Err(Diag::ExpectedWord { expected: Category::Colon, got: word(Category::Int, 6, 9) }),
        parser_over("let x int;", &handler).parse_decl()
    );
    assert_eq!(
        Err(Diag::ExpectedWord { expected: Category::Semi, got: Word::eof() }),
        parser_over("let x: int", &handler).parse_decl()
    );
    assert_eq!(
        Ok(Decl { ident: id(0), ty: Ty::StrTy }),
        parser_over("let x: str;", &handler).parse_decl()
    );
}

#[test]
fn call_takes_arguments_with_commas_between() {
    let handler = Handler::with_ignoring_emitter();
    assert_eq!(
        Ok(Stmt::Call(id(0), vec![])),
        parser_over("f();", &handler).parse_command()
    );
    assert_eq!(
        Ok(Stmt::Call(id(0), vec![lit(1)])),
        parser_over("f(1);", &handler).parse_command()
    );
    assert_eq!(
        Ok(Stmt::Call(id(0), vec![var(1), bin(BinOp::Add, lit(2), var(1)), Expr::Lit(Lit::StrLit("s".into()))])),
        parser_over("write(x, 2 + x, \"s\");", &handler).parse_command()
    );
    assert_eq!(
        Ok(Stmt::Call(id(7), vec![lit(1)])),
        parser_over("(1);", &handler).parse_call(id(7))
    );
}

#[test]
fn call_fails_on_misplaced_commas() {
    let handler = Handler::with_ignoring_emitter();
    let factor_starts = vec![
        Category::OpenParen,
        Category::StrLit,
        Category::NumConst { is_float: false },
        Category::NumConst { is_float: true },
        Category::Ident,
    ];
    assert_eq!(
        Err(Diag::ExpectedOneOf {
            expected: factor_starts.clone(),
            got: word(Category::CloseParen, 4, 5),
        }),
        parser_over("f(1,);", &handler).parse_command()
    );
    assert_eq!(
        Err(Diag::ExpectedOneOf { expected: factor_starts, got: word(Category::Comma, 2, 3) }),
        parser_over("f(,1);", &handler).parse_command()
    );
    assert_eq!(
        Err(Diag::ExpectedWord { expected: Category::Comma, got: word(Category::NumConst { is_float: false }, 4, 5) }),
        parser_over("f(1 2);", &handler).parse_command()
    );
    assert_eq!(
        Err(Diag::ExpectedWord { expected: Category::Semi, got: Word::eof() }),
        parser_over("f(1)", &handler).parse_command()
    );
    assert_eq!(
        Err(Diag::ExpectedWord { expected: Category::OpenParen, got: word(Category::Eq, 0, 1) }),
        parser_over("= 1;", &handler).parse_call(id(0))
    );
}

#[test]
fn assignment_fails_without_equals_sign_or_semicolon() {
    let handler = Handler::with_ignoring_emitter();
    assert_eq!(
        Err(Diag::ExpectedWord { expected: Category::Eq, got: word(Category::EqEq, 2, 4) }),
        parser_over("x == 1;", &handler).parse_assignment()
    );
    assert_eq!(
        Err(Diag::ExpectedWord { expected: Category::Semi, got: word(Category::CloseCurly, 6, 7) }),
        parser_over("x = 1 }", &handler).parse_assignment()
    );
    assert_eq!(
        Err(Diag::ExpectedWord { expected: Category::Ident, got: word(Category::NumConst { is_float: false }, 0, 1) }),
        parser_over("1 = x;", &handler).parse_assignment()
    );
}

#[test]
fn block_needs_a_statement() {
    let handler = Handler::with_ignoring_emitter();
    let starts = vec![Category::Ident, Category::If, Category::While, Category::OpenCurly];
    assert_eq!(
        Err(Diag::ExpectedOneOf { expected: starts.clone(), got: word(Category::CloseCurly, 2, 3) }),
        parser_over("{ }", &handler).parse_block()
    );
    assert_eq!(
        Err(Diag::ExpectedOneOf { expected: starts, got: word(Category::Semi, 0, 1) }),
        parser_over(";", &handler).parse_command()
    );
    assert_eq!(
        Err(Diag::ExpectedWord { expected: Category::OpenCurly, got: word(Category::Ident, 0, 1) }),
        parser_over("x = 1;", &handler).parse_block()
    );
    assert_eq!(
        Err(Diag::ExpectedWord { expected: Category::CloseCurly, got: Word::eof() }),
        parser_over("{ x = 1;", &handler).parse_block()
    );
}

#[test]
fn selection_and_repetition_need_their_keyword() {
    let handler = Handler::with_ignoring_emitter();
    assert_eq!(
        Err(Diag::ExpectedWord { expected: Category::If, got: word(Category::While, 0, 5) }),
        parser_over("while 1 { x = 0; }", &handler).parse_selection()
    );
    assert_eq!(
        Err(Diag::ExpectedWord { expected: Category::While, got: word(Category::If, 0, 2) }),
        parser_over("if 1 { x = 0; }", &handler).parse_repetition()
    );
    assert_eq!(
        Err(Diag::ExpectedWord { expected: Category::OpenCurly, got: word(Category::Ident, 5, 6) }),
        parser_over("if 1 x = 0;", &handler).parse_selection()
    );
    assert_eq!(
        Err(Diag::ExpectedWord { expected: Category::OpenCurly, got: word(Category::If, 21, 23) }),
        parser_over("if 1 { x = 0; } else if 2 { x = 1; }", &handler).parse_selection()
    );
}

#[test]
fn statements_nest() {
    let handler = Handler::with_ignoring_emitter();
    let mut parser = parser_over(
        "while a < 10 { if a == b { { a = a + 1; } } else { print(a); } b = 2; }",
        &handler,
    );
    let inner = Stmt::If(
        bin(BinOp::Eq, var(0), var(1)),
        Box::new(Block {
            stmts: vec![Stmt::BlockStmt(Box::new(Block {
                stmts: vec![Stmt::Assign(id(0), bin(BinOp::Add, var(0), lit(1)))],
            }))],
        }),
        Some(Box::new(Block { stmts: vec![Stmt::Call(id(2), vec![var(0)])] })),
    );
    let wanted = Stmt::While(
        bin(BinOp::Lt, var(0), lit(10)),
        Box::new(Block { stmts: vec![inner, Stmt::Assign(id(1), lit(2))] }),
    );
    assert_eq!(Ok(wanted), parser.parse_command());
    assert_eq!(Word::eof(), parser.consume());
}

#[test]
fn program_takes_declarations_then_statements() {
    let handler = Handler::with_ignoring_emitter();
    let mut parser = parser_over(
        "program p;\nlet a: int;\nlet b: float;\na = 1;\nb = 2.5;\n",
        &handler,
    );
    let wanted = Program {
        name: id(0),
        decls: vec![Decl { ident: id(1), ty: Ty::IntTy }, Decl { ident: id(2), ty: Ty::FloatTy }],
        stmts: vec![
            Stmt::Assign(id(1), lit(1)),
            Stmt::Assign(id(2), Expr::Lit(Lit::FloatLit("2.5".into()))),
        ],
    };
    assert_eq!(Ok(wanted), parser.parse_program());
}

#[test]
fn program_without_declarations_or_statements() {
    let handler = Handler::with_ignoring_emitter();
    assert_eq!(
        Ok(Program { name: id(0), decls: vec![], stmts: vec![] }),
        parser_over("program empty;", &handler).parse_program()
    );
    assert_eq!(
        Err(Diag::ExpectedWord { expected: Category::Program, got: Word::eof() }),
        parser_over("", &handler).parse_program()
    );
    assert_eq!(
        Err(Diag::ExpectedWord { expected: Category::Ident, got: word(Category::Semi, 7, 8) }),
        parser_over("program;", &handler).parse_program()
    );
}

#[test]
fn program_does_not_look_behind_its_last_statement() {
    let handler = Handler::with_ignoring_emitter();
    let mut parser = parser_over("program p; x = 1; let y: int; )", &handler);
    assert_eq!(
        Ok(Program { name: id(0), decls: vec![], stmts: vec![Stmt::Assign(id(1), lit(1))] }),
        parser.parse_program()
    );
    assert_eq!(word(Category::Let, 18, 21), parser.consume());
}

#[test]
fn program_stops_at_the_first_syntax_error() {
    let handler = Handler::with_ignoring_emitter();
    assert_eq!(
        Err(Diag::ExpectedWord { expected: Category::Semi, got: word(Category::Ident, 29, 30) }),
        parser_over("program p; let a: int; a = 1 a = ; ;;", &handler).parse_program()
    );
    assert_eq!(
        Err(Diag::ExpectedOneOf {
            expected: vec![Category::Bool, Category::Int, Category::Float, Category::Str],
            got: word(Category::Ident, 18, 21),
        }),
        parser_over("program p; let a: num;", &handler).parse_program()
    );
}

#[test]
fn lexical_errors_do_not_stop_the_parser() {
    let handler = Handler::with_ignoring_emitter();
    let mut parser = parser_over("program p; $ x = # 1; @", &handler);
    assert_eq!(
        Ok(Program { name: id(0), decls: vec![], stmts: vec![Stmt::Assign(id(1), lit(1))] }),
        parser.parse_program()
    );
}

#[test]
fn tree_types_that_the_parser_does_not_build() {
    assert_ne!(CallKind::Read, CallKind::ReadLn);
    assert_ne!(CallKind::Write, CallKind::WriteLn);
    let negated = Expr::UnaryOp(UnOp::Neg, Box::new(lit(1)));
    assert_ne!(negated, Expr::UnaryOp(UnOp::Not, Box::new(lit(1))));
}
