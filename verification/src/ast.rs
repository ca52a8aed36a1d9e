//! The abstract syntax tree that the parser builds, and its mathematical view.

use vstd::prelude::*;

verus! {

/// The type named in a declaration.
#[derive(Clone, Copy, Debug, PartialEq, Eq, Structural)]
pub enum Ty {
    BoolTy,
    IntTy,
    FloatTy,
    StrTy,
}

/// The built-in input and output calls.
#[derive(Clone, Copy, Debug, PartialEq, Eq, Structural)]
pub enum CallKind {
    Read,
    ReadLn,
    Write,
    WriteLn,
}

/// The number under which an identifier's text was interned.
#[derive(Copy, Clone, PartialEq, Eq, Debug, Structural)]
pub struct Name(pub u64);

/// An identifier, known by its interned name.
#[derive(Copy, Clone, Debug, PartialEq, Eq, Structural)]
pub struct Ident {
    pub name: Name,
}

/// A literal. A floating-point literal keeps its text as it stands in the source.
#[derive(Debug, PartialEq)]
pub enum Lit {
    IntLit(u64),
    FloatLit(String),
    StrLit(String),
}

#[derive(Clone, Copy, Debug, PartialEq, Eq, Structural)]
pub enum BinOp {
    Add,
    Sub,
    Mult,
    Div,
    Eq,
    Ne,
    Lt,
    Le,
    Gt,
    Ge,
}

#[derive(Clone, Copy, Debug, PartialEq, Eq, Structural)]
pub enum UnOp {
    Neg,
    Not,
}

#[derive(Debug, PartialEq)]
pub enum Expr {
    BinaryOp(BinOp, Box<Expr>, Box<Expr>),
    UnaryOp(UnOp, Box<Expr>),
    Lit(Lit),
    Ident(Ident),
    Paren(Box<Expr>),
}

#[derive(Debug, PartialEq)]
pub struct Block {
    pub stmts: Vec<Stmt>,
}

#[derive(Debug, PartialEq)]
pub enum Stmt {
    Assign(Ident, Expr),
    If(Expr, Box<Block>, Option<Box<Block>>),
    While(Expr, Box<Block>),
    BlockStmt(Box<Block>),
    Call(Ident, Vec<Expr>),
}

#[derive(Clone, Copy, Debug, PartialEq, Eq, Structural)]
pub struct Decl {
    pub ident: Ident,
    pub ty: Ty,
}

#[derive(Debug, PartialEq)]
pub struct Program {
    pub name: Ident,
    pub decls: Vec<Decl>,
    pub stmts: Vec<Stmt>,
}

/// The view of a literal: strings as sequences of characters.
pub ghost enum LitView {
    IntLit(u64),
    FloatLit(Seq<char>),
    StrLit(Seq<char>),
}

/// The view of an expression.
pub ghost enum ExprView {
    BinaryOp(BinOp, Box<ExprView>, Box<ExprView>),
    UnaryOp(UnOp, Box<ExprView>),
    Lit(LitView),
    Ident(Ident),
    Paren(Box<ExprView>),
}

/// The view of a block: its statements in order.
pub ghost struct BlockView {
    pub stmts: Seq<StmtView>,
}

/// The view of a statement.
pub ghost enum StmtView {
    Assign(Ident, ExprView),
    If(ExprView, BlockView, Option<BlockView>),
    While(ExprView, BlockView),
    BlockStmt(BlockView),
    Call(Ident, Seq<ExprView>),
}

/// The view of a program.
pub ghost struct ProgramView {
    pub name: Ident,
    pub decls: Seq<Decl>,
    pub stmts: Seq<StmtView>,
}

impl View for Lit {
    type V = LitView;

    open spec fn view(&self) -> LitView {
        match self {
            Lit::IntLit(v) => LitView::IntLit(*v),
            Lit::FloatLit(s) => LitView::FloatLit(s@),
            Lit::StrLit(s) => LitView::StrLit(s@),
        }
    }
}

/// The view of an expression, node by node.
pub open spec fn expr_view(expr: Expr) -> ExprView
    decreases expr,
{
    match expr {
        Expr::BinaryOp(op, lhs, rhs) => ExprView::BinaryOp(
            op,
            Box::new(expr_view(*lhs)),
            Box::new(expr_view(*rhs)),
        ),
        Expr::UnaryOp(op, e) => ExprView::UnaryOp(op, Box::new(expr_view(*e))),
        Expr::Lit(lit) => ExprView::Lit(lit@),
        Expr::Ident(id) => ExprView::Ident(id),
        Expr::Paren(e) => ExprView::Paren(Box::new(expr_view(*e))),
    }
}

/// The views of a sequence of expressions.
pub open spec fn exprs_view(exprs: Seq<Expr>) -> Seq<ExprView> {
    Seq::new(exprs.len(), |i: int| expr_view(exprs[i]))
}

/// The view of a statement, node by node.
pub open spec fn stmt_view(stmt: Stmt) -> StmtView
    decreases stmt,
{
    match stmt {
        Stmt::Assign(id, e) => StmtView::Assign(id, expr_view(e)),
        Stmt::If(cond, then_block, else_block) => StmtView::If(
            expr_view(cond),
            block_view(*then_block),
            match else_block {
                Some(b) => Some(block_view(*b)),
                None => None,
            },
        ),
        Stmt::While(cond, body) => StmtView::While(expr_view(cond), block_view(*body)),
        Stmt::BlockStmt(b) => StmtView::BlockStmt(block_view(*b)),
        Stmt::Call(id, args) => StmtView::Call(id, exprs_view(args@)),
    }
}

/// The view of a block.
pub open spec fn block_view(block: Block) -> BlockView
    decreases block,
{
    BlockView {
        stmts: Seq::new(
            block.stmts@.len(),
            |i: int|
                if 0 <= i < block.stmts@.len() {
                    stmt_view(block.stmts@[i])
                } else {
                    arbitrary()
                },
        ),
    }
}

/// The views of a sequence of statements.
pub open spec fn stmts_view(stmts: Seq<Stmt>) -> Seq<StmtView> {
    Seq::new(stmts.len(), |i: int| stmt_view(stmts[i]))
}

impl View for Expr {
    type V = ExprView;

    open spec fn view(&self) -> ExprView {
        expr_view(*self)
    }
}

impl View for Stmt {
    type V = StmtView;

    open spec fn view(&self) -> StmtView {
        stmt_view(*self)
    }
}

impl View for Block {
    type V = BlockView;

    open spec fn view(&self) -> BlockView {
        block_view(*self)
    }
}

impl View for Program {
    type V = ProgramView;

    open spec fn view(&self) -> ProgramView {
        ProgramView { name: self.name, decls: self.decls@, stmts: stmts_view(self.stmts@) }
    }
}

} // verus!
