use lang_front::ast;
use lang_front::errors;
use lang_front::parser::Parser;
use lang_front::scanner::{Category, Scanner, Word, WordStream};
use lang_front::source_map::{BytePos, SourceFile, Span};
use std::rc::Rc;

type Quiet = errors::Handler<errors::IgnoringEmitter>;

fn create_parser<'a>(src: &str, handler: &'a Quiet) -> Parser<'a, errors::IgnoringEmitter> {
    let file = Rc::new(SourceFile::new("test".into(), src.into()));
    let scanner = Scanner::new(file);
    let word_stream = WordStream::new(scanner, handler);
    Parser::new(word_stream)
}

fn mk_int(v: u64) -> ast::Expr {
    ast::Expr::Lit(ast::Lit::IntLit(v))
}

fn float_of(result: Result<ast::Expr, errors::Diag>) -> f64 {
    match result {
        Ok(ast::Expr::Lit(ast::Lit::FloatLit(text))) => text.parse::<f64>().unwrap(),
        other => panic!("no floating-point literal: {:?}", other),
    }
}

#[test]
fn test_unexpected_end_of_file() {
    let handler = errors::Handler::with_ignoring_emitter();
    let mut parser = create_parser("", &handler);

    assert_eq!(Word::eof(), parser.consume());
}

#[test]
fn test_parse_str_lit() {
    let handler = errors::Handler::with_ignoring_emitter();
    let mut parser = create_parser("\"abc 123!\"", &handler);
    assert_eq!(
        Ok(ast::Expr::Lit(ast::Lit::StrLit("abc 123!".into()))),
        parser.parse_expr()
    );
}

#[test]
fn test_parse_num_const() {
    let handler = errors::Handler::with_ignoring_emitter();
    let mut parser = create_parser("0 123 3.14 42e3", &handler);
    assert_eq!(Ok(ast::Expr::Lit(ast::Lit::IntLit(0))), parser.parse_expr());
    assert_eq!(
        Ok(ast::Expr::Lit(ast::Lit::IntLit(123))),
        parser.parse_expr()
    );
    assert_eq!(3.14, float_of(parser.parse_expr()));
    assert_eq!(42000.0, float_of(parser.parse_expr()));
}

#[test]
fn test_parse_ident() {
    let handler = errors::Handler::with_ignoring_emitter();
    let mut parser = create_parser("aaa bbb aaa ccc bbb aaa a", &handler);
    assert_eq!(
        Ok(ast::Expr::Ident(ast::Ident { name: ast::Name(0) })),
        parser.parse_expr()
    );
    assert_eq!(
        Ok(ast::Expr::Ident(ast::Ident { name: ast::Name(1) })),
        parser.parse_expr()
    );
    assert_eq!(
        Ok(ast::Expr::Ident(ast::Ident { name: ast::Name(0) })),
        parser.parse_expr()
    );
    assert_eq!(
        Ok(ast::Expr::Ident(ast::Ident { name: ast::Name(2) })),
        parser.parse_expr()
    );
    assert_eq!(
        Ok(ast::Expr::Ident(ast::Ident { name: ast::Name(1) })),
        parser.parse_expr()
    );
    assert_eq!(
        Ok(ast::Expr::Ident(ast::Ident { name: ast::Name(0) })),
        parser.parse_expr()
    );
    assert_eq!(
        Ok(ast::Expr::Ident(ast::Ident { name: ast::Name(3) })),
        parser.parse_expr()
    );
}

#[test]
fn test_parse_paren() {
    let handler = errors::Handler::with_ignoring_emitter();
    let mut parser = create_parser("(((0)))", &handler);
    let lit = ast::Expr::Lit(ast::Lit::IntLit(0));
    let paren1 = ast::Expr::Paren(Box::new(lit));
    let paren2 = ast::Expr::Paren(Box::new(paren1));
    let paren3 = ast::Expr::Paren(Box::new(paren2));

    assert_eq!(Ok(paren3), parser.parse_expr());
}

#[test]
fn test_parse_unbalanced_paren() {
    let handler = errors::Handler::with_ignoring_emitter();
    let mut parser = create_parser("(((0))", &handler);
    let diag = errors::Diag::ExpectedWord {
        expected: Category::CloseParen,
        got: Word::eof(),
    };
    assert_eq!(Err(diag), parser.parse_expr());
}

#[test]
fn test_parse_relational_expr() {
    let handler = errors::Handler::with_ignoring_emitter();
    let mut parser = create_parser("0 < 0", &handler);
    let expr = ast::Expr::BinaryOp(ast::BinOp::Lt, Box::new(mk_int(0)), Box::new(mk_int(0)));
    assert_eq!(Ok(expr), parser.parse_expr());
}

#[test]
fn test_parse_equality_expr() {
    let handler = errors::Handler::with_ignoring_emitter();
    let mut parser = create_parser("0 == 0", &handler);
    let expr = ast::Expr::BinaryOp(ast::BinOp::Eq, Box::new(mk_int(0)), Box::new(mk_int(0)));
    assert_eq!(Ok(expr), parser.parse_expr());
}

#[test]
fn test_parse_term() {
    let handler = errors::Handler::with_ignoring_emitter();
    let mut parser = create_parser("0 * 0", &handler);
    let expr = ast::Expr::BinaryOp(ast::BinOp::Mult, Box::new(mk_int(0)), Box::new(mk_int(0)));
    assert_eq!(Ok(expr), parser.parse_expr());
}

#[test]
fn test_parse_additive() {
    let handler = errors::Handler::with_ignoring_emitter();
    let mut parser = create_parser("0 + 0", &handler);
    let expr = ast::Expr::BinaryOp(ast::BinOp::Add, Box::new(mk_int(0)), Box::new(mk_int(0)));
    assert_eq!(Ok(expr), parser.parse_expr());
}

#[test]
fn test_parse_selection() {
    let handler = errors::Handler::with_ignoring_emitter();
    let mut parser = create_parser("if 1 { x = 0; } else { x = 1; }", &handler);

    let stmt = ast::Stmt::If(
        mk_int(1),
        Box::new(ast::Block {
            stmts: vec![ast::Stmt::Assign(
                ast::Ident { name: ast::Name(0) },
                mk_int(0),
            )],
        }),
        Some(Box::new(ast::Block {
            stmts: vec![ast::Stmt::Assign(
                ast::Ident { name: ast::Name(0) },
                mk_int(1),
            )],
        })),
    );

    assert_eq!(Ok(stmt), parser.parse_selection());
}

#[test]
fn test_parse_selection_without_else() {
    let handler = errors::Handler::with_ignoring_emitter();
    let mut parser = create_parser("if 1 { x = 0; }", &handler);

    let stmt = ast::Stmt::If(
        mk_int(1),
        Box::new(ast::Block {
            stmts: vec![ast::Stmt::Assign(
                ast::Ident { name: ast::Name(0) },
                mk_int(0),
            )],
        }),
        None,
    );

    assert_eq!(Ok(stmt), parser.parse_selection());
}

#[test]
fn test_parse_repetition() {
    let handler = errors::Handler::with_ignoring_emitter();
    let mut parser = create_parser("while 1 { x = 0; }", &handler);

    let stmt = ast::Stmt::While(
        mk_int(1),
        Box::new(ast::Block {
            stmts: vec![ast::Stmt::Assign(
                ast::Ident { name: ast::Name(0) },
                mk_int(0),
            )],
        }),
    );

    assert_eq!(Ok(stmt), parser.parse_repetition());
}

#[test]
fn test_parse_block() {
    let handler = errors::Handler::with_ignoring_emitter();
    let mut parser = create_parser("{ x = 0; y = 1; x = 2; }", &handler);

    let stmt = ast::Stmt::BlockStmt(Box::new(ast::Block {
        stmts: vec![
            ast::Stmt::Assign(ast::Ident { name: ast::Name(0) }, mk_int(0)),
            ast::Stmt::Assign(ast::Ident { name: ast::Name(1) }, mk_int(1)),
            ast::Stmt::Assign(ast::Ident { name: ast::Name(0) }, mk_int(2)),
        ],
    }));

    assert_eq!(Ok(stmt), parser.parse_block_stmt());
}

#[test]
fn test_parse_decl() {
    let handler = errors::Handler::with_ignoring_emitter();
    let mut parser = create_parser("let i: int;", &handler);

    let decl = ast::Decl {
        ident: ast::Ident { name: ast::Name(0) },
        ty: ast::Ty::IntTy,
    };

    assert_eq!(Ok(decl), parser.parse_decl());
}

#[test]
fn test_parse_program() {
    let handler = errors::Handler::with_ignoring_emitter();
    let mut parser = create_parser("program a; let i: int; i = 42;", &handler);

    let prog = ast::Program {
        name: ast::Ident { name: ast::Name(0) },
        decls: vec![ast::Decl {
            ident: ast::Ident { name: ast::Name(1) },
            ty: ast::Ty::IntTy,
        }],
        stmts: vec![ast::Stmt::Assign(
            ast::Ident { name: ast::Name(1) },
            mk_int(42),
        )],
    };

    assert_eq!(Ok(prog), parser.parse_program());
}

#[test]
fn test_parse_program_missing_semi() {
    let handler = errors::Handler::with_ignoring_emitter();
    let mut parser = create_parser("program a let i: int; i = 42;", &handler);

    let diag = errors::Diag::ExpectedWord {
        expected: Category::Semi,
        got: Word {
            category: Category::Let,
            lexeme: Span {
                start: BytePos(10),
                end: BytePos(13),
            },
        },
    };

    assert_eq!(Err(diag), parser.parse_program());
}
