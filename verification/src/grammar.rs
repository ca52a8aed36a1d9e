//! The grammar, as functions from a sequence of words to a syntax tree.
//!
//! ```text
//! program    := 'program' ident ';' decl* stmt*
//! decl       := 'let' ident ':' type ';'
//! type       := 'bool' | 'int' | 'float' | 'str'
//! stmt       := assign | call | if-stmt | while-stmt | block
//! assign     := ident '=' expr ';'
//! call       := ident '(' (expr (',' expr)*)? ')' ';'
//! if-stmt    := 'if' expr block ('else' block)?
//! while-stmt := 'while' expr block
//! block      := '{' stmt+ '}'
//! expr       := term (('+'|'-') expr)?
//! term       := equality (('*'|'/') term)?
//! equality   := relational (('=='|'!=') equality)?
//! relational := factor (('<'|'<='|'>'|'>=') relational)?
//! factor     := '(' expr ')' | string-lit | int-lit | float-lit | ident
//! ```
//!
//! Each function takes the words, the index of the word to begin with and the names interned
//! so far. It gives the tree or the first error, the number of words taken, and the names
//! interned afterwards.

use crate::ast::BinOp;
use crate::ast::BlockView;
use crate::ast::Decl;
use crate::ast::ExprView;
use crate::ast::Ident;
use crate::ast::LitView;
use crate::ast::Name;
use crate::ast::ProgramView;
use crate::ast::StmtView;
use crate::ast::Ty;
use crate::errors::DiagView;
use crate::scanner::Category;
use crate::scanner::Word;
use crate::source_map::snippet;
use vstd::prelude::*;
use vstd::utf8::*;

verus! {

/// The words that a parser reads, and the text that they are words of.
pub ghost struct Tokens {
    pub text: Seq<u8>,
    pub words: Seq<Word>,
}

impl Tokens {
    /// The word at index `i`; behind the last word, the end-of-file word.
    pub open spec fn peek(self, i: int) -> Word {
        if 0 <= i < self.words.len() {
            self.words[i]
        } else {
            Word::end_of_file()
        }
    }

    /// The number of words from index `i` on.
    pub open spec fn remaining(self, i: int) -> nat {
        if i < self.words.len() {
            (self.words.len() - i) as nat
        } else {
            0
        }
    }

    /// The index behind the word at index `i`; `i` itself behind the last word.
    pub open spec fn advance(self, i: int) -> int {
        if i < self.words.len() {
            i + 1
        } else {
            i
        }
    }

    /// The category of the word at index `i`.
    pub open spec fn category(self, i: int) -> Category {
        self.peek(i).category
    }

    /// The text of `word`.
    pub open spec fn lexeme(self, word: Word) -> Seq<char> {
        decode_utf8(snippet(self.text, word.lexeme))
    }
}

/// The names interned so far, in the order in which they were first seen. The name of a text
/// is its index.
pub type Names = Seq<Seq<char>>;

/// The index of the first entry of `names` that equals `text`; the length of `names` if there
/// is none.
pub open spec fn position(names: Names, text: Seq<char>) -> int
    decreases names.len(),
{
    if names.len() == 0 {
        0
    } else {
        let before = position(names.drop_last(), text);
        if before < names.len() - 1 || names.last() == text {
            before
        } else {
            names.len() as int
        }
    }
}

/// The names after `text` was interned: `text` is added behind the others unless it is among
/// them.
pub open spec fn intern(names: Names, text: Seq<char>) -> Names {
    if position(names, text) < names.len() {
        names
    } else {
        names.push(text)
    }
}

/// The name under which `text` is interned, or will be.
pub open spec fn name_of(names: Names, text: Seq<char>) -> Name {
    Name(position(names, text) as u64)
}

/// `position` is the least index at which `text` stands, and the length where it stands
/// nowhere.
pub proof fn lemma_position(names: Names, text: Seq<char>)
    ensures
        0 <= position(names, text) <= names.len(),
        forall|k: int| 0 <= k < position(names, text) ==> names[k] != text,
        position(names, text) < names.len() ==> names[position(names, text)] == text,
    decreases names.len(),
{
    if names.len() > 0 {
        lemma_position(names.drop_last(), text);
        let before = position(names.drop_last(), text);
        assert forall|k: int| 0 <= k < position(names, text) implies names[k] != text by {
            if k < names.len() - 1 {
                assert(names.drop_last()[k] == names[k]);
            }
        }
        if before < names.len() - 1 {
            assert(names.drop_last()[before] == names[before]);
        }
    }
}

/// An index before which `text` does not stand, and at which it stands or the names end, is
/// the position of `text`.
pub proof fn lemma_position_is(names: Names, text: Seq<char>, p: int)
    requires
        0 <= p <= names.len(),
        forall|k: int| 0 <= k < p ==> names[k] != text,
        p < names.len() ==> names[p] == text,
    ensures
        position(names, text) == p,
{
    lemma_position(names, text);
}

/// No text stands twice among `names`.
pub open spec fn distinct(names: Names) -> bool {
    forall|i: int, j: int| 0 <= i < j < names.len() ==> names[i] != names[j]
}

/// Interning is idempotent: a text that was interned keeps its name when it is met again, and
/// the names stay as they are.
pub proof fn lemma_intern_idempotent(names: Names, text: Seq<char>)
    ensures
        name_of(intern(names, text), text) == name_of(names, text),
        intern(intern(names, text), text) == intern(names, text),
{
    lemma_position(names, text);
    lemma_position_is(intern(names, text), text, position(names, text));
}

/// Interning is stable: a text that was interned keeps its name when another text is
/// interned.
pub proof fn lemma_intern_stable(names: Names, text: Seq<char>, earlier: Seq<char>)
    requires
        position(names, earlier) < names.len(),
    ensures
        name_of(intern(names, text), earlier) == name_of(names, earlier),
{
    lemma_position(names, earlier);
    lemma_position_is(intern(names, text), earlier, position(names, earlier));
}

/// Names are given in the order in which texts are first seen: a text that was not interned
/// before gets the number of texts interned so far, and is entered behind them. Texts that
/// were interned stay distinct.
pub proof fn lemma_intern_fresh(names: Names, text: Seq<char>)
    requires
        distinct(names),
        forall|k: int| 0 <= k < names.len() ==> names[k] != text,
    ensures
        name_of(names, text) == Name(names.len() as u64),
        intern(names, text) == names.push(text),
        distinct(intern(names, text)),
{
    lemma_position_is(names, text, names.len() as int);
}

/// Among distinct names, the name of the text at index `k` is `k`: the names count up from 0
/// in the order of first sight.
pub proof fn lemma_names_count_up(names: Names, k: int)
    requires
        distinct(names),
        0 <= k < names.len(),
    ensures
        position(names, names[k]) == k,
        intern(names, names[k]) == names,
{
    lemma_position_is(names, names[k], k);
}

/// Interning keeps the names distinct.
pub proof fn lemma_intern_distinct(names: Names, text: Seq<char>)
    requires
        distinct(names),
    ensures
        distinct(intern(names, text)),
{
    lemma_position(names, text);
}

/// The value of the decimal digits among `bytes`, read from left to right. Bytes that are no
/// digits are passed over.
pub open spec fn decimal(bytes: Seq<u8>) -> nat
    decreases bytes.len(),
{
    if bytes.len() == 0 {
        0
    } else {
        let b = bytes.last();
        if 0x30 <= b <= 0x39 {
            decimal(bytes.drop_last()) * 10 + (b - 0x30) as nat
        } else {
            decimal(bytes.drop_last())
        }
    }
}

/// The value of an integer literal: that of its digits, modulo 2^64.
pub open spec fn int_value(bytes: Seq<u8>) -> u64 {
    (decimal(bytes) % 0x1_0000_0000_0000_0000) as u64
}

/// The value of a string literal: its text without the quotation mark at each end.
pub open spec fn string_value(text: Seq<u8>, word: Word) -> Seq<char> {
    decode_utf8(text.subrange(word.lexeme.start.0 + 1, word.lexeme.end.0 - 1))
}

/// What parsing gives: the tree or the first error, the number of words taken up to there,
/// and the names interned afterwards.
pub ghost struct Parsed<T> {
    pub result: Result<T, DiagView>,
    pub taken: nat,
    pub names: Names,
}

impl<T> Parsed<T> {
    /// Success with `value`.
    pub open spec fn done(value: T, taken: nat, names: Names) -> Parsed<T> {
        Parsed { result: Ok(value), taken, names }
    }

    /// Failure with `diag`.
    pub open spec fn fail(diag: DiagView, taken: nat, names: Names) -> Parsed<T> {
        Parsed { result: Err(diag), taken, names }
    }

    /// The same outcome after `n` more words were taken before.
    pub open spec fn after(self, n: nat) -> Parsed<T> {
        Parsed { result: self.result, taken: n + self.taken, names: self.names }
    }
}

/// A list that begins with `prefix`, for which `taken` words were taken, and goes on as
/// `rest` says.
pub open spec fn continued<T>(prefix: Seq<T>, taken: nat, rest: Parsed<Seq<T>>) -> Parsed<Seq<T>> {
    match rest.result {
        Ok(items) => Parsed::done(prefix + items, taken + rest.taken, rest.names),
        Err(diag) => Parsed::fail(diag, taken + rest.taken, rest.names),
    }
}

/// The error for a word of another category than `category` at index `i`.
pub open spec fn expected(t: Tokens, i: int, category: Category) -> DiagView {
    DiagView::ExpectedWord { expected: category, got: t.peek(i) }
}

/// The error for a word at index `i` that is none of `categories`.
pub open spec fn expected_one_of(t: Tokens, i: int, categories: Seq<Category>) -> DiagView {
    DiagView::ExpectedOneOf { expected: categories, got: t.peek(i) }
}

/// A word of `category`.
pub open spec fn word(t: Tokens, i: int, names: Names, category: Category) -> Parsed<Word> {
    if t.category(i) == category {
        Parsed::done(t.peek(i), (t.advance(i) - i) as nat, names)
    } else {
        Parsed::fail(expected(t, i, category), 0, names)
    }
}

/// A word of one of `categories`.
pub open spec fn word_of(t: Tokens, i: int, names: Names, categories: Seq<Category>) -> Parsed<
    Word,
> {
    if categories.contains(t.category(i)) {
        Parsed::done(t.peek(i), (t.advance(i) - i) as nat, names)
    } else {
        Parsed::fail(expected_one_of(t, i, categories), 0, names)
    }
}

/// The categories that name a type.
pub open spec fn type_categories() -> Seq<Category> {
    seq![Category::Bool, Category::Int, Category::Float, Category::Str]
}

/// The categories with which a factor begins.
pub open spec fn factor_categories() -> Seq<Category> {
    seq![
        Category::OpenParen,
        Category::StrLit,
        Category::NumConst { is_float: false },
        Category::NumConst { is_float: true },
        Category::Ident,
    ]
}

/// The categories with which a statement begins.
pub open spec fn statement_categories() -> Seq<Category> {
    seq![Category::Ident, Category::If, Category::While, Category::OpenCurly]
}

/// Whether a statement begins with a word of `category`.
pub open spec fn starts_statement(category: Category) -> bool {
    category == Category::Ident || category == Category::If || category == Category::While
        || category == Category::OpenCurly
}

/// An identifier: its text is interned.
pub open spec fn ident(t: Tokens, i: int, names: Names) -> Parsed<Ident> {
    if t.category(i) == Category::Ident {
        let text = t.lexeme(t.peek(i));
        Parsed::done(Ident { name: name_of(names, text) }, 1, intern(names, text))
    } else {
        Parsed::fail(expected(t, i, Category::Ident), 0, names)
    }
}

/// The levels of binary operators, from the loosest to the tightest.
pub ghost enum Tier {
    Additive,
    Multiplicative,
    Equality,
    Relational,
}

impl Tier {
    /// The levels from tightest to loosest, counted from 1.
    pub open spec fn rank(self) -> int {
        match self {
            Tier::Additive => 4,
            Tier::Multiplicative => 3,
            Tier::Equality => 2,
            Tier::Relational => 1,
        }
    }

    /// The operator of this level that a word of `category` stands for, if any.
    pub open spec fn operator(self, category: Category) -> Option<BinOp> {
        match self {
            Tier::Additive => match category {
                Category::Plus => Some(BinOp::Add),
                Category::Minus => Some(BinOp::Sub),
                _ => None,
            },
            Tier::Multiplicative => match category {
                Category::Star => Some(BinOp::Mult),
                Category::Slash => Some(BinOp::Div),
                _ => None,
            },
            Tier::Equality => match category {
                Category::EqEq => Some(BinOp::Eq),
                Category::Ne => Some(BinOp::Ne),
                _ => None,
            },
            Tier::Relational => match category {
                Category::Lt => Some(BinOp::Lt),
                Category::Le => Some(BinOp::Le),
                Category::Gt => Some(BinOp::Gt),
                Category::Ge => Some(BinOp::Ge),
                _ => None,
            },
        }
    }
}

/// A factor: an expression in parentheses, a literal or an identifier.
pub open spec fn factor(t: Tokens, i: int, names: Names) -> Parsed<ExprView>
    decreases t.remaining(i), 0int,
{
    let word = t.peek(i);
    match word.category {
        Category::OpenParen => {
            let inner = binary(Tier::Additive, t, i + 1, names);
            match inner.result {
                Ok(e) => if t.category(i + 1 + inner.taken) == Category::CloseParen {
                    Parsed::done(ExprView::Paren(Box::new(e)), inner.taken + 2, inner.names)
                } else {
                    Parsed::fail(
                        expected(t, i + 1 + inner.taken, Category::CloseParen),
                        inner.taken + 1,
                        inner.names,
                    )
                },
                Err(_) => inner.after(1),
            }
        },
        Category::StrLit => Parsed::done(
            ExprView::Lit(LitView::StrLit(string_value(t.text, word))),
            1,
            names,
        ),
        Category::NumConst { is_float: false } => Parsed::done(
            ExprView::Lit(LitView::IntLit(int_value(snippet(t.text, word.lexeme)))),
            1,
            names,
        ),
        Category::NumConst { is_float: true } => Parsed::done(
            ExprView::Lit(LitView::FloatLit(t.lexeme(word))),
            1,
            names,
        ),
        Category::Ident => {
            let id = ident(t, i, names);
            match id.result {
                Ok(id_value) => Parsed::done(ExprView::Ident(id_value), id.taken, id.names),
                Err(diag) => Parsed::fail(diag, id.taken, id.names),
            }
        },
        Category::Eof => Parsed::fail(DiagView::UnexpectedEndOfFile, 0, names),
        _ => Parsed::fail(expected_one_of(t, i, factor_categories()), 0, names),
    }
}

/// An expression of level `tier`: an operand of the next tighter level, then optionally an
/// operator of this level and an expression of this level again. The tree so leans to the
/// right.
pub open spec fn binary(tier: Tier, t: Tokens, i: int, names: Names) -> Parsed<ExprView>
    decreases t.remaining(i), tier.rank(),
{
    let lhs = match tier {
        Tier::Additive => binary(Tier::Multiplicative, t, i, names),
        Tier::Multiplicative => binary(Tier::Equality, t, i, names),
        Tier::Equality => binary(Tier::Relational, t, i, names),
        Tier::Relational => factor(t, i, names),
    };
    match lhs.result {
        Ok(left) => match tier.operator(t.category(i + lhs.taken)) {
            Some(op) => {
                let rhs = binary(tier, t, i + lhs.taken + 1, lhs.names);
                match rhs.result {
                    Ok(right) => Parsed::done(
                        ExprView::BinaryOp(op, Box::new(left), Box::new(right)),
                        lhs.taken + 1 + rhs.taken,
                        rhs.names,
                    ),
                    Err(_) => rhs.after(lhs.taken + 1),
                }
            },
            None => lhs,
        },
        Err(_) => lhs,
    }
}

/// The level of an expression: that of the operator at its top, and 0 for a factor.
pub open spec fn level(e: ExprView) -> int {
    match e {
        ExprView::BinaryOp(op, _, _) => match op {
            BinOp::Add | BinOp::Sub => 4,
            BinOp::Mult | BinOp::Div => 3,
            BinOp::Eq | BinOp::Ne => 2,
            BinOp::Lt | BinOp::Le | BinOp::Gt | BinOp::Ge => 1,
        },
        _ => 0,
    }
}

/// The operand of an expression of level `tier`: an expression of the next tighter level.
pub open spec fn operand(tier: Tier, t: Tokens, i: int, names: Names) -> Parsed<ExprView> {
    match tier {
        Tier::Additive => binary(Tier::Multiplicative, t, i, names),
        Tier::Multiplicative => binary(Tier::Equality, t, i, names),
        Tier::Equality => binary(Tier::Relational, t, i, names),
        Tier::Relational => factor(t, i, names),
    }
}

/// Binary expressions lean to the right. Where an operator of level `tier` follows the
/// first operand, the expression is that operator applied to the first operand and to the
/// whole rest of the expression: in `a - b - c` the right operand of the first `-` is
/// `b - c`. So the left operand of an operator is always of a tighter level than the
/// operator, and the right operand of the same level or a tighter one.
pub proof fn lemma_leans_right(tier: Tier, t: Tokens, i: int, names: Names)
    ensures
        binary(tier, t, i, names).result matches Ok(e) ==> {
            let lhs = operand(tier, t, i, names);
            &&& level(e) <= tier.rank()
            &&& lhs.result is Ok
            &&& match tier.operator(t.category(i + lhs.taken)) {
                Some(op) => {
                    let rhs = binary(tier, t, i + lhs.taken + 1, lhs.names);
                    &&& rhs.result is Ok
                    &&& e == ExprView::BinaryOp(
                        op,
                        Box::new(lhs.result->Ok_0),
                        Box::new(rhs.result->Ok_0),
                    )
                    &&& level(e) == tier.rank()
                    &&& level(lhs.result->Ok_0) < tier.rank()
                    &&& level(rhs.result->Ok_0) <= tier.rank()
                },
                None => e == lhs.result->Ok_0 && level(e) < tier.rank(),
            }
        },
    decreases t.remaining(i), tier.rank(),
{
    let lhs = operand(tier, t, i, names);
    match tier {
        Tier::Additive => lemma_leans_right(Tier::Multiplicative, t, i, names),
        Tier::Multiplicative => lemma_leans_right(Tier::Equality, t, i, names),
        Tier::Equality => lemma_leans_right(Tier::Relational, t, i, names),
        Tier::Relational => {},
    }
    if lhs.result is Ok {
        if tier.operator(t.category(i + lhs.taken)) is Some {
            lemma_leans_right(tier, t, i + lhs.taken + 1, lhs.names);
        }
    }
}

/// An expression.
pub open spec fn expr(t: Tokens, i: int, names: Names) -> Parsed<ExprView> {
    binary(Tier::Additive, t, i, names)
}

/// A term.
pub open spec fn term(t: Tokens, i: int, names: Names) -> Parsed<ExprView> {
    binary(Tier::Multiplicative, t, i, names)
}

/// An equality.
pub open spec fn equality(t: Tokens, i: int, names: Names) -> Parsed<ExprView> {
    binary(Tier::Equality, t, i, names)
}

/// A relational expression.
pub open spec fn relational(t: Tokens, i: int, names: Names) -> Parsed<ExprView> {
    binary(Tier::Relational, t, i, names)
}

/// The name of a type.
pub open spec fn ty(t: Tokens, i: int, names: Names) -> Parsed<Ty> {
    match t.category(i) {
        Category::Bool => Parsed::done(Ty::BoolTy, 1, names),
        Category::Int => Parsed::done(Ty::IntTy, 1, names),
        Category::Float => Parsed::done(Ty::FloatTy, 1, names),
        Category::Str => Parsed::done(Ty::StrTy, 1, names),
        _ => Parsed::fail(expected_one_of(t, i, type_categories()), 0, names),
    }
}

/// A declaration: `let`, an identifier, `:`, a type and `;`.
pub open spec fn decl(t: Tokens, i: int, names: Names) -> Parsed<Decl> {
    if t.category(i) != Category::Let {
        Parsed::fail(expected(t, i, Category::Let), 0, names)
    } else {
        let id = ident(t, i + 1, names);
        match id.result {
            Err(diag) => Parsed::fail(diag, 1, names),
            Ok(id_value) => if t.category(i + 2) != Category::Colon {
                Parsed::fail(expected(t, i + 2, Category::Colon), 2, id.names)
            } else {
                let of_type = ty(t, i + 3, id.names);
                match of_type.result {
                    Err(diag) => Parsed::fail(diag, 3, id.names),
                    Ok(ty_value) => if t.category(i + 4) != Category::Semi {
                        Parsed::fail(expected(t, i + 4, Category::Semi), 4, id.names)
                    } else {
                        Parsed::done(Decl { ident: id_value, ty: ty_value }, 5, id.names)
                    },
                }
            },
        }
    }
}

/// Declarations, as long as `let` follows.
pub open spec fn decls(t: Tokens, i: int, names: Names) -> Parsed<Seq<Decl>>
    decreases t.remaining(i),
{
    if t.category(i) == Category::Let {
        let first = decl(t, i, names);
        match first.result {
            Err(diag) => Parsed::fail(diag, first.taken, first.names),
            Ok(d) => {
                let rest = decls(t, i + 5, first.names);
                match rest.result {
                    Err(_) => rest.after(5),
                    Ok(ds) => Parsed::done(seq![d] + ds, 5 + rest.taken, rest.names),
                }
            },
        }
    } else {
        Parsed::done(Seq::empty(), 0, names)
    }
}

/// The arguments of a call, from the first one to the closing parenthesis, which is not
/// taken: expressions with a `,` between each two.
pub open spec fn arguments(t: Tokens, i: int, names: Names) -> Parsed<Seq<ExprView>>
    decreases t.remaining(i),
{
    let first = expr(t, i, names);
    match first.result {
        Err(diag) => Parsed::fail(diag, first.taken, first.names),
        Ok(e) => {
            let j = i + first.taken;
            if t.category(j) == Category::CloseParen {
                Parsed::done(seq![e], first.taken, first.names)
            } else if t.category(j) == Category::Comma {
                let rest = arguments(t, j + 1, first.names);
                match rest.result {
                    Err(_) => rest.after(first.taken + 1),
                    Ok(es) => Parsed::done(seq![e] + es, first.taken + 1 + rest.taken, rest.names),
                }
            } else {
                Parsed::fail(expected(t, j, Category::Comma), first.taken, first.names)
            }
        },
    }
}

/// What follows the name `callee` in a call: the arguments in parentheses and `;`.
pub open spec fn call_tail(t: Tokens, callee: Ident, i: int, names: Names) -> Parsed<StmtView> {
    if t.category(i) != Category::OpenParen {
        Parsed::fail(expected(t, i, Category::OpenParen), 0, names)
    } else {
        let args = if t.category(i + 1) == Category::CloseParen {
            Parsed::done(Seq::empty(), 0, names)
        } else {
            arguments(t, i + 1, names)
        };
        match args.result {
            Err(diag) => Parsed::fail(diag, 1 + args.taken, args.names),
            Ok(es) => {
                let j = i + 1 + args.taken;
                if t.category(j) != Category::CloseParen {
                    Parsed::fail(expected(t, j, Category::CloseParen), 1 + args.taken, args.names)
                } else if t.category(j + 1) != Category::Semi {
                    Parsed::fail(expected(t, j + 1, Category::Semi), 2 + args.taken, args.names)
                } else {
                    Parsed::done(StmtView::Call(callee, es), 3 + args.taken, args.names)
                }
            },
        }
    }
}

/// What follows the identifier `first` at the start of a statement: a call, or `=`, an
/// expression and `;`.
pub open spec fn assignment_tail(t: Tokens, first: Word, i: int, names: Names) -> Parsed<
    StmtView,
> {
    let text = t.lexeme(first);
    let target = Ident { name: name_of(names, text) };
    let names = intern(names, text);
    if t.category(i) == Category::OpenParen {
        call_tail(t, target, i, names)
    } else if t.category(i) != Category::Eq {
        Parsed::fail(expected(t, i, Category::Eq), 0, names)
    } else {
        let value = expr(t, i + 1, names);
        match value.result {
            Err(diag) => Parsed::fail(diag, 1 + value.taken, value.names),
            Ok(e) => {
                let j = i + 1 + value.taken;
                if t.category(j) != Category::Semi {
                    Parsed::fail(expected(t, j, Category::Semi), 1 + value.taken, value.names)
                } else {
                    Parsed::done(StmtView::Assign(target, e), 2 + value.taken, value.names)
                }
            },
        }
    }
}

/// What follows the word `first` with which a statement begins.
pub open spec fn statement_tail(t: Tokens, first: Word, i: int, names: Names) -> Parsed<StmtView>
    decreases t.remaining(i), 3int,
{
    match first.category {
        Category::Ident => assignment_tail(t, first, i, names),
        Category::If => selection_tail(t, i, names),
        Category::While => repetition_tail(t, i, names),
        Category::OpenCurly => {
            let body = block_tail(t, i, names);
            match body.result {
                Ok(b) => Parsed::done(StmtView::BlockStmt(b), body.taken, body.names),
                Err(diag) => Parsed::fail(diag, body.taken, body.names),
            }
        },
        _ => Parsed::fail(
            DiagView::ExpectedOneOf { expected: statement_categories(), got: first },
            0,
            names,
        ),
    }
}

/// What follows `if`: the condition, a block, and optionally `else` and a block.
pub open spec fn selection_tail(t: Tokens, i: int, names: Names) -> Parsed<StmtView>
    decreases t.remaining(i), 2int,
{
    let cond = expr(t, i, names);
    match cond.result {
        Err(diag) => Parsed::fail(diag, cond.taken, cond.names),
        Ok(c) => {
            let then_block = block(t, i + cond.taken, cond.names);
            match then_block.result {
                Err(diag) => Parsed::fail(diag, cond.taken + then_block.taken, then_block.names),
                Ok(b) => {
                    let j = i + cond.taken + then_block.taken;
                    if t.category(j) == Category::Else {
                        let else_block = block(t, j + 1, then_block.names);
                        match else_block.result {
                            Err(diag) => Parsed::fail(
                                diag,
                                cond.taken + then_block.taken + 1 + else_block.taken,
                                else_block.names,
                            ),
                            Ok(e) => Parsed::done(
                                StmtView::If(c, b, Some(e)),
                                cond.taken + then_block.taken + 1 + else_block.taken,
                                else_block.names,
                            ),
                        }
                    } else {
                        Parsed::done(
                            StmtView::If(c, b, None),
                            cond.taken + then_block.taken,
                            then_block.names,
                        )
                    }
                },
            }
        },
    }
}

/// What follows `while`: the condition and a block.
pub open spec fn repetition_tail(t: Tokens, i: int, names: Names) -> Parsed<StmtView>
    decreases t.remaining(i), 2int,
{
    let cond = expr(t, i, names);
    match cond.result {
        Err(diag) => Parsed::fail(diag, cond.taken, cond.names),
        Ok(c) => {
            let body = block(t, i + cond.taken, cond.names);
            match body.result {
                Err(diag) => Parsed::fail(diag, cond.taken + body.taken, body.names),
                Ok(b) => Parsed::done(StmtView::While(c, b), cond.taken + body.taken, body.names),
            }
        },
    }
}

/// A block: `{`, one statement or more, and `}`.
pub open spec fn block(t: Tokens, i: int, names: Names) -> Parsed<BlockView>
    decreases t.remaining(i), 1int,
{
    if t.category(i) == Category::OpenCurly {
        block_tail(t, i + 1, names).after(1)
    } else {
        Parsed::fail(expected(t, i, Category::OpenCurly), 0, names)
    }
}

/// What follows the `{` of a block: one statement or more, and `}`.
pub open spec fn block_tail(t: Tokens, i: int, names: Names) -> Parsed<BlockView>
    decreases t.remaining(i), 1int,
{
    if !starts_statement(t.category(i)) {
        Parsed::fail(expected_one_of(t, i, statement_categories()), 0, names)
    } else {
        let body = statements(t, i, names);
        match body.result {
            Err(diag) => Parsed::fail(diag, body.taken, body.names),
            Ok(stmts) => if t.category(i + body.taken) == Category::CloseCurly {
                Parsed::done(BlockView { stmts }, body.taken + 1, body.names)
            } else {
                Parsed::fail(
                    expected(t, i + body.taken, Category::CloseCurly),
                    body.taken,
                    body.names,
                )
            },
        }
    }
}

/// Statements, as long as a word follows with which a statement begins.
pub open spec fn statements(t: Tokens, i: int, names: Names) -> Parsed<Seq<StmtView>>
    decreases t.remaining(i), 0int,
{
    if starts_statement(t.category(i)) {
        let first = statement_tail(t, t.peek(i), i + 1, names);
        match first.result {
            Err(diag) => Parsed::fail(diag, 1 + first.taken, first.names),
            Ok(s) => {
                let rest = statements(t, i + 1 + first.taken, first.names);
                match rest.result {
                    Err(_) => rest.after(1 + first.taken),
                    Ok(ss) => Parsed::done(seq![s] + ss, 1 + first.taken + rest.taken, rest.names),
                }
            },
        }
    } else {
        Parsed::done(Seq::empty(), 0, names)
    }
}

/// A statement.
pub open spec fn statement(t: Tokens, i: int, names: Names) -> Parsed<StmtView> {
    if starts_statement(t.category(i)) {
        statement_tail(t, t.peek(i), i + 1, names).after(1)
    } else {
        Parsed::fail(expected_one_of(t, i, statement_categories()), 0, names)
    }
}

/// A selection: `if`, the condition, a block, and optionally `else` and a block.
pub open spec fn selection(t: Tokens, i: int, names: Names) -> Parsed<StmtView> {
    if t.category(i) == Category::If {
        selection_tail(t, i + 1, names).after(1)
    } else {
        Parsed::fail(expected(t, i, Category::If), 0, names)
    }
}

/// A repetition: `while`, the condition and a block.
pub open spec fn repetition(t: Tokens, i: int, names: Names) -> Parsed<StmtView> {
    if t.category(i) == Category::While {
        repetition_tail(t, i + 1, names).after(1)
    } else {
        Parsed::fail(expected(t, i, Category::While), 0, names)
    }
}

/// A block as a statement.
pub open spec fn block_statement(t: Tokens, i: int, names: Names) -> Parsed<StmtView> {
    let body = block(t, i, names);
    match body.result {
        Ok(b) => Parsed::done(StmtView::BlockStmt(b), body.taken, body.names),
        Err(diag) => Parsed::fail(diag, body.taken, body.names),
    }
}

/// An assignment or a call: an identifier and what follows it.
pub open spec fn assignment(t: Tokens, i: int, names: Names) -> Parsed<StmtView> {
    if t.category(i) == Category::Ident {
        assignment_tail(t, t.peek(i), i + 1, names).after(1)
    } else {
        Parsed::fail(expected(t, i, Category::Ident), 0, names)
    }
}

/// A program: `program`, its name and `;`, then the declarations and the statements. What
/// follows the last statement is not looked at.
pub open spec fn program(t: Tokens, i: int, names: Names) -> Parsed<ProgramView> {
    if t.category(i) != Category::Program {
        Parsed::fail(expected(t, i, Category::Program), 0, names)
    } else {
        let name = ident(t, i + 1, names);
        match name.result {
            Err(diag) => Parsed::fail(diag, 1, names),
            Ok(id) => if t.category(i + 2) != Category::Semi {
                Parsed::fail(expected(t, i + 2, Category::Semi), 2, name.names)
            } else {
                let ds = decls(t, i + 3, name.names);
                match ds.result {
                    Err(diag) => Parsed::fail(diag, 3 + ds.taken, ds.names),
                    Ok(decl_list) => {
                        let ss = statements(t, i + 3 + ds.taken, ds.names);
                        match ss.result {
                            Err(diag) => Parsed::fail(diag, 3 + ds.taken + ss.taken, ss.names),
                            Ok(stmt_list) => Parsed::done(
                                ProgramView { name: id, decls: decl_list, stmts: stmt_list },
                                3 + ds.taken + ss.taken,
                                ss.names,
                            ),
                        }
                    },
                }
            },
        }
    }
}

} // verus!
