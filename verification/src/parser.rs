//! The parser: recursive descent over the word stream, one word of lookahead.

use crate::ast::exprs_view;
use crate::ast::stmts_view;
use crate::ast::BinOp;
use crate::ast::ExprView;
use crate::ast::StmtView;
use crate::ast::Block;
use crate::ast::Decl;
use crate::ast::Expr;
use crate::ast::Ident;
use crate::ast::Lit;
use crate::ast::Name;
use crate::ast::Program;
use crate::ast::Stmt;
use crate::ast::Ty;
use crate::errors::Diag;
use crate::errors::DiagView;
use crate::errors::Emitter;
use crate::grammar::distinct;
use crate::grammar::decimal;
use crate::grammar::expected;
use crate::grammar::arguments;
use crate::grammar::assignment;
use crate::grammar::block;
use crate::grammar::block_statement;
use crate::grammar::call_tail;
use crate::grammar::continued;
use crate::grammar::decl;
use crate::grammar::decls;
use crate::grammar::program;
use crate::grammar::repetition;
use crate::grammar::selection;
use crate::grammar::starts_statement;
use crate::grammar::statement;
use crate::grammar::statements;
use crate::grammar::ty;
use crate::grammar::type_categories;
use crate::grammar::expr;
use crate::grammar::equality;
use crate::grammar::factor;
use crate::grammar::int_value;
use crate::grammar::relational;
use crate::grammar::term;
use crate::grammar::ident;
use crate::grammar::word;
use crate::grammar::word_of;
use crate::grammar::intern;
use crate::grammar::lemma_position;
use crate::grammar::lemma_position_is;
use crate::grammar::name_of;
use crate::grammar::position;
use crate::grammar::Names;
use crate::grammar::Parsed;
use crate::grammar::Tokens;
use crate::lexis::errors_within;
use crate::lexis::is_word_of;
use crate::lexis::lemma_at_end;
use crate::lexis::lemma_one_word_more;
use crate::lexis::position_after;
use crate::lexis::skipped_errors;
use crate::lexis::lemma_next_valid_word;
use crate::lexis::lemma_position_at_end;
use crate::lexis::lemma_words_from;
use crate::lexis::next_valid_word;
use crate::lexis::words_from;
use crate::scanner::Category;
use crate::scanner::Word;
use crate::scanner::WordStream;
use crate::source_map::is_boundary;
use crate::source_map::is_span_of;
use crate::source_map::snippet;
use crate::source_map::BytePos;
use crate::source_map::SourceFile;
use crate::source_map::Span;
use vstd::arithmetic::div_mod::lemma_add_mod_noop;
use vstd::arithmetic::div_mod::lemma_mul_mod_noop_left;
use vstd::arithmetic::div_mod::lemma_small_mod;
use vstd::prelude::*;
use vstd::string::*;
use vstd::utf8::*;

verus! {

/// The parser. It holds the word that comes next, and the table of the identifiers seen so
/// far: the name of an identifier is the index of its text in the table.
pub struct Parser<'a, E: Emitter> {
    word_stream: WordStream<'a, E>,
    peek_word: Word,
    ident_table: Vec<String>,
    words: Ghost<Seq<Word>>,
    cursor: Ghost<int>,
    origin: Ghost<int>,
    reported_before: Ghost<Seq<Diag>>,
}

/// A result with its error taken by its view.
pub open spec fn plain<T>(r: Result<T, Diag>) -> Result<T, DiagView> {
    match r {
        Ok(value) => Ok(value),
        Err(diag) => Err(diag@),
    }
}

/// A result with its value and its error taken by their views.
pub open spec fn viewed<T: View>(r: Result<T, Diag>) -> Result<T::V, DiagView> {
    match r {
        Ok(value) => Ok(value@),
        Err(diag) => Err(diag@),
    }
}

/// The value of the decimal digits in `text`, modulo 2^64.
pub fn decimal_value(text: &str) -> (value: u64)
    ensures
        value == int_value(text.spec_bytes()),
{
    let bytes = text.as_bytes();
    let n: usize = bytes.len();
    let mut value: u64 = 0;
    let mut i: usize = 0;
    assert(bytes@.subrange(0, 0) =~= Seq::<u8>::empty());
    while i < n
        invariant
            i <= n,
            n == bytes@.len(),
            value == int_value(bytes@.subrange(0, i as int)),
        decreases n - i,
    {
        let b = bytes[i];
        let ghost prefix = bytes@.subrange(0, i as int);
        let ghost longer = bytes@.subrange(0, i + 1);
        proof {
            assert(longer.drop_last() =~= prefix);
            assert(longer.last() == b);
        }
        if 0x30 <= b && b <= 0x39 {
            let digit: u64 = (b - 0x30) as u64;
            proof {
                let m = 0x1_0000_0000_0000_0000int;
                let d = decimal(prefix) as int;
                lemma_mul_mod_noop_left(d, 10, m);
                lemma_add_mod_noop(d * 10, digit as int, m);
                lemma_small_mod(digit as nat, m as nat);
                let shifted = (d % m) * 10 % m;
                assert(value as int == d % m);
                assert(shifted == (value as nat * 10nat) % (m as nat));
                if shifted + digit >= m {
                    vstd::arithmetic::div_mod::lemma_mod_sub_multiples_vanish(
                        shifted + digit as int,
                        m,
                    );
                    lemma_small_mod((shifted + digit - m) as nat, m as nat);
                } else {
                    lemma_small_mod((shifted + digit) as nat, m as nat);
                }
            }
            value = value.wrapping_mul(10).wrapping_add(digit);
        }
        i = i + 1;
    }
    assert(bytes@.subrange(0, n as int) =~= bytes@);
    value
}

impl<'a, E: Emitter> Parser<'a, E> {
    /// The file that is parsed.
    pub closed spec fn file(&self) -> SourceFile {
        self.word_stream.scanner_view().file()
    }

    /// The words that the parser reads: those of the text from where the word stream stood
    /// when the parser was made.
    pub closed spec fn tokens(&self) -> Tokens {
        Tokens { text: self.word_stream.text(), words: self.words@ }
    }

    /// The index of the word that comes next.
    pub closed spec fn cursor(&self) -> int {
        self.cursor@
    }

    /// The texts of the identifiers seen so far, in the order in which they were first seen.
    pub closed spec fn names(&self) -> Names {
        Seq::new(self.ident_table@.len(), |i: int| self.ident_table@[i]@)
    }

    /// The offset at which the word stream stood when the parser was made.
    pub closed spec fn origin(&self) -> int {
        self.origin@
    }

    /// The lexical errors that the word stream had reported when the parser was made.
    pub closed spec fn reported_before(&self) -> Seq<Diag> {
        self.reported_before@
    }

    /// The lexical errors that the word stream has reported, in order.
    pub closed spec fn reported(&self) -> Seq<Diag> {
        self.word_stream.reported()
    }

    /// The parser holds the word at its cursor, the word stream stands behind that word and
    /// has reported the lexical errors before it, and no text stands twice in the table of
    /// identifiers.
    pub closed spec fn wf(&self) -> bool {
        let text = self.word_stream.text();
        let words = self.words@;
        &&& self.word_stream.wf()
        &&& 0 <= self.cursor@ <= words.len()
        &&& forall|k: int| 0 <= k < words.len() ==> is_word_of(text, #[trigger] words[k])
        &&& self.peek_word == self.tokens().peek(self.cursor@)
        &&& words_from(text, self.word_stream.position()) == words.subrange(
            self.tokens().advance(self.cursor@),
            words.len() as int,
        )
        &&& is_boundary(text, self.origin@)
        &&& words == words_from(text, self.origin@)
        &&& self.word_stream.position() == position_after(
            text,
            self.origin@,
            (self.cursor@ + 1) as nat,
        )
        &&& self.word_stream.reported() == self.reported_before@ + errors_within(
            text,
            self.origin@,
            (self.cursor@ + 1) as nat,
        )
        &&& distinct(self.names())
    }

    /// What a step of parsing leaves behind: the parser is moved over the words taken, and
    /// holds the names interned.
    pub open spec fn moved<T>(&self, before: &Self, parsed: Parsed<T>) -> bool {
        &&& self.wf()
        &&& self.file() == before.file()
        &&& self.tokens() == before.tokens()
        &&& self.origin() == before.origin()
        &&& self.reported_before() == before.reported_before()
        &&& self.cursor() == before.cursor() + parsed.taken
        &&& self.names() == parsed.names
    }

    /// What holds of a parser: its words are words of its text, which is that of its file.
    pub proof fn lemma_tokens(&self)
        requires
            self.wf(),
        ensures
            self.tokens().text == self.file().bytes(),
            self.file().wf(),
            0 <= self.cursor() <= self.tokens().words.len(),
            forall|k: int|
                0 <= k < self.tokens().words.len() ==> is_word_of(
                    self.tokens().text,
                    #[trigger] self.tokens().words[k],
                ),
            distinct(self.names()),
            is_boundary(self.tokens().text, self.origin()),
            self.tokens().words == words_from(self.tokens().text, self.origin()),
            self.reported() == self.reported_before() + errors_within(
                self.tokens().text,
                self.origin(),
                (self.cursor() + 1) as nat,
            ),
    {
        self.word_stream.scanner_view().lemma_position();
    }

    /// A parser at the first word that `word_stream` gives.
    pub fn new(word_stream: WordStream<'a, E>) -> (parser: Parser<'a, E>)
        requires
            word_stream.wf(),
        ensures
            parser.wf(),
            parser.file() == word_stream.scanner_view().file(),
            parser.tokens() == (Tokens {
                text: word_stream.text(),
                words: words_from(word_stream.text(), word_stream.position()),
            }),
            parser.cursor() == 0,
            parser.names() == Seq::<Seq<char>>::empty(),
            parser.origin() == word_stream.position(),
            parser.reported_before() == word_stream.reported(),
    {
        let mut word_stream = word_stream;
        let ghost text = word_stream.text();
        let ghost from = word_stream.position();
        let ghost words = words_from(text, from);
        let ghost reported = word_stream.reported();
        proof {
            word_stream.scanner_view().lemma_position();
            lemma_next_valid_word(text, from);
            lemma_words_from(text, from);
            lemma_one_word_more(text, from, 0);
        }
        let peek_word = word_stream.next();
        proof {
            lemma_next_valid_word(text, text.len() as int);
        }
        let parser = Parser {
            word_stream,
            peek_word,
            ident_table: Vec::new(),
            words: Ghost(words),
            cursor: Ghost(0),
            origin: Ghost(from),
            reported_before: Ghost(reported),
        };
        assert(parser.names() =~= Seq::<Seq<char>>::empty());
        assert(words_from(text, parser.word_stream.position()) =~= words.subrange(
            parser.tokens().advance(0),
            words.len() as int,
        ));
        parser
    }

    /// Takes the word that comes next and reads on. At the end of the text the word is the
    /// end-of-file word, and stays so.
    pub fn consume(&mut self) -> (ate: Word)
        requires
            old(self).wf(),
        ensures
            final(self).wf(),
            final(self).file() == old(self).file(),
            final(self).tokens() == old(self).tokens(),
            final(self).names() == old(self).names(),
            final(self).origin() == old(self).origin(),
            final(self).reported_before() == old(self).reported_before(),
            ate == old(self).tokens().peek(old(self).cursor()),
            final(self).cursor() == old(self).tokens().advance(old(self).cursor()),
    {
        let ghost text = self.word_stream.text();
        let ghost from = self.word_stream.position();
        let ghost words = self.words@;
        let ghost next = self.tokens().advance(self.cursor@);
        proof {
            self.word_stream.scanner_view().lemma_position();
            lemma_next_valid_word(text, from);
            lemma_next_valid_word(text, text.len() as int);
            lemma_one_word_more(text, self.origin@, (self.cursor@ + 1) as nat);
            lemma_at_end(text);
            if self.cursor@ == words.len() {
                assert(self.peek_word.category == Category::Eof);
                lemma_one_word_more(text, self.origin@, self.cursor@ as nat);
                lemma_position_at_end(text, self.origin@, self.cursor@ as nat);
            }
        }
        let ate_word = self.peek_word;
        self.peek_word = self.word_stream.next();
        proof {
            self.cursor@ = next;
            let rest = words.subrange(next, words.len() as int);
            if self.peek_word.category != Category::Eof {
                let after = words_from(text, self.word_stream.position());
                assert(rest == seq![self.peek_word] + after);
                assert(rest.len() == 1 + after.len());
                assert(rest[0] == self.peek_word);
                assert(after =~= rest.subrange(1, rest.len() as int));
                assert(after =~= words.subrange(next + 1, words.len() as int));
            } else {
                assert(rest.len() == 0);
                assert(words_from(text, self.word_stream.position()) =~= words.subrange(
                    next,
                    words.len() as int,
                ));
            }
            let before = self.reported_before@;
            let within = errors_within(text, self.origin@, (old(self).cursor@ + 1) as nat);
            if old(self).cursor@ == words.len() {
                assert((before + within) + Seq::<Diag>::empty() =~= before + within);
            } else {
                let skipped = skipped_errors(text, from);
                assert((before + within) + skipped =~= before + (within + skipped));
            }
        }
        ate_word
    }

    /// Whether a statement begins with the word that comes next.
    fn is_start_of_statement(&self) -> (b: bool)
        ensures
            b == crate::grammar::starts_statement(self.peek_word.category),
    {
        match self.peek_word.category {
            Category::Ident | Category::If | Category::While | Category::OpenCurly => true,
            _ => false,
        }
    }

    /// Takes the word that comes next if it is of `category`, and fails on any other word.
    fn expect_and_consume(&mut self, category: Category) -> (r: Result<Word, Diag>)
        requires
            old(self).wf(),
        ensures
            final(self).moved(
                old(self),
                word(old(self).tokens(), old(self).cursor(), old(self).names(), category),
            ),
            plain(r) == word(
                old(self).tokens(),
                old(self).cursor(),
                old(self).names(),
                category,
            ).result,
    {
        if self.peek_word.category == category {
            Ok(self.consume())
        } else {
            Err(Diag::ExpectedWord { expected: category, got: self.peek_word })
        }
    }

    /// Takes the word that comes next if it is of one of `categories`, and fails on any other
    /// word.
    fn expect_one_of_and_consume(&mut self, categories: Vec<Category>) -> (r: Result<Word, Diag>)
        requires
            old(self).wf(),
        ensures
            final(self).moved(
                old(self),
                word_of(old(self).tokens(), old(self).cursor(), old(self).names(), categories@),
            ),
            plain(r) == word_of(
                old(self).tokens(),
                old(self).cursor(),
                old(self).names(),
                categories@,
            ).result,
    {
        let mut found = false;
        let mut i: usize = 0;
        while i < categories.len()
            invariant
                i <= categories.len(),
                found == exists|k: int| 0 <= k < i && categories@[k] == self.peek_word.category,
            decreases categories.len() - i,
        {
            if categories[i] == self.peek_word.category {
                found = true;
            }
            i = i + 1;
        }
        if found {
            Ok(self.consume())
        } else {
            Err(Diag::ExpectedOneOf { expected: categories, got: self.peek_word })
        }
    }

    /// The text that `span` covers.
    fn get_lexeme(&self, span: Span) -> (text: &str)
        requires
            self.wf(),
            is_span_of(self.tokens().text, span),
        ensures
            text.spec_bytes() == snippet(self.tokens().text, span),
            text@ == decode_utf8(snippet(self.tokens().text, span)),
    {
        self.word_stream.scanner().source_file().span_to_snippet(span)
    }

    /// The text of the word that comes next.
    fn get_peek_lexeme(&self) -> (text: &str)
        requires
            self.wf(),
            self.cursor() < self.tokens().words.len(),
        ensures
            text.spec_bytes() == snippet(
                self.tokens().text,
                self.tokens().peek(self.cursor()).lexeme,
            ),
            text@ == self.tokens().lexeme(self.tokens().peek(self.cursor())),
    {
        self.get_lexeme(self.peek_word.lexeme)
    }

    /// Interns `ident`: gives the name under which its text stands in the table, and enters
    /// the text first if it does not stand there.
    fn register_name(&mut self, ident: String) -> (name: Name)
        requires
            old(self).wf(),
        ensures
            final(self).wf(),
            final(self).file() == old(self).file(),
            final(self).tokens() == old(self).tokens(),
            final(self).cursor() == old(self).cursor(),
            final(self).origin() == old(self).origin(),
            final(self).reported_before() == old(self).reported_before(),
            final(self).names() == intern(old(self).names(), ident@),
            name == name_of(old(self).names(), ident@),
    {
        let n: usize = self.ident_table.len();
        let mut i: usize = 0;
        while i < n
            invariant
                i <= n,
                n == self.ident_table@.len(),
                *self == *old(self),
                self.wf(),
                forall|k: int| 0 <= k < i ==> self.names()[k] != ident@,
            decreases n - i,
        {
            if self.ident_table[i] == ident {
                proof {
                    lemma_position_is(self.names(), ident@, i as int);
                }
                return Name(i as u64);
            }
            i = i + 1;
        }
        proof {
            lemma_position_is(self.names(), ident@, n as int);
        }
        let ghost before = self.names();
        self.ident_table.push(ident);
        assert(self.names() =~= before.push(ident@));
        Name(n as u64)
    }

    /// An identifier.
    pub fn parse_ident(&mut self) -> (r: Result<Ident, Diag>)
        requires
            old(self).wf(),
        ensures
            final(self).moved(
                old(self),
                ident(old(self).tokens(), old(self).cursor(), old(self).names()),
            ),
            plain(r) == ident(old(self).tokens(), old(self).cursor(), old(self).names()).result,
    {
        let word = self.expect_and_consume(Category::Ident)?;
        proof {
            self.lemma_tokens();
        }
        let id_lexeme = self.get_lexeme(word.lexeme).to_owned();
        let name = self.register_name(id_lexeme);
        Ok(Ident { name })
    }

    /// A factor: an expression in parentheses, a literal or an identifier.
    pub fn parse_factor(&mut self) -> (r: Result<Expr, Diag>)
        requires
            old(self).wf(),
        ensures
            final(self).moved(
                old(self),
                factor(old(self).tokens(), old(self).cursor(), old(self).names()),
            ),
            viewed(r) == factor(old(self).tokens(), old(self).cursor(), old(self).names()).result,
        decreases old(self).tokens().remaining(old(self).cursor()), 0int,
    {
        proof {
            self.lemma_tokens();
        }
        match self.peek_word.category {
            Category::OpenParen => {
                self.consume();
                let inner = match self.parse_expr() {
                    Ok(e) => e,
                    Err(diag) => {
                        return Err(diag);
                    },
                };
                match self.expect_and_consume(Category::CloseParen) {
                    Ok(_) => Ok(Expr::Paren(Box::new(inner))),
                    Err(diag) => Err(diag),
                }
            },
            Category::StrLit => {
                let word = self.peek_word;
                let inner = Span {
                    start: BytePos(word.lexeme.start.0 + 1),
                    end: BytePos(word.lexeme.end.0 - 1),
                };
                let str_data = self.get_lexeme(inner).to_owned();
                self.consume();
                Ok(Expr::Lit(Lit::StrLit(str_data)))
            },
            Category::NumConst { is_float: false } => {
                let value = decimal_value(self.get_peek_lexeme());
                self.consume();
                Ok(Expr::Lit(Lit::IntLit(value)))
            },
            Category::NumConst { is_float: true } => {
                let text = self.get_peek_lexeme().to_owned();
                self.consume();
                Ok(Expr::Lit(Lit::FloatLit(text)))
            },
            Category::Ident => match self.parse_ident() {
                Ok(id) => Ok(Expr::Ident(id)),
                Err(diag) => Err(diag),
            },
            Category::Eof => Err(Diag::UnexpectedEndOfFile),
            _ => {
                let expected = vec![
                    Category::OpenParen,
                    Category::StrLit,
                    Category::NumConst { is_float: false },
                    Category::NumConst { is_float: true },
                    Category::Ident,
                ];
                assert(expected@ =~= crate::grammar::factor_categories());
                Err(Diag::ExpectedOneOf { expected, got: self.peek_word })
            },
        }
    }

    /// A relational expression: a factor, then optionally `<`, `<=`, `>` or `>=` and a
    /// relational expression.
    pub fn parse_relational_expr(&mut self) -> (r: Result<Expr, Diag>)
        requires
            old(self).wf(),
        ensures
            final(self).moved(
                old(self),
                relational(old(self).tokens(), old(self).cursor(), old(self).names()),
            ),
            viewed(r) == relational(
                old(self).tokens(),
                old(self).cursor(),
                old(self).names(),
            ).result,
        decreases old(self).tokens().remaining(old(self).cursor()), 1int,
    {
        let lhs_expr = match self.parse_factor() {
            Ok(e) => e,
            Err(diag) => {
                return Err(diag);
            },
        };
        proof {
            self.lemma_tokens();
        }
        match self.peek_word.category {
            Category::Lt | Category::Le | Category::Gt | Category::Ge => {
                let rel_cat = self.peek_word.category;
                self.consume();
                let rhs_expr = match self.parse_relational_expr() {
                    Ok(e) => e,
                    Err(diag) => {
                        return Err(diag);
                    },
                };
                let rel_op = match rel_cat {
                    Category::Lt => BinOp::Lt,
                    Category::Le => BinOp::Le,
                    Category::Gt => BinOp::Gt,
                    _ => BinOp::Ge,
                };
                Ok(Expr::BinaryOp(rel_op, Box::new(lhs_expr), Box::new(rhs_expr)))
            },
            _ => Ok(lhs_expr),
        }
    }

    /// An equality: a relational expression, then optionally `==` or `!=` and an equality.
    pub fn parse_equality_expr(&mut self) -> (r: Result<Expr, Diag>)
        requires
            old(self).wf(),
        ensures
            final(self).moved(
                old(self),
                equality(old(self).tokens(), old(self).cursor(), old(self).names()),
            ),
            viewed(r) == equality(old(self).tokens(), old(self).cursor(), old(self).names()).result,
        decreases old(self).tokens().remaining(old(self).cursor()), 2int,
    {
        let lhs_expr = match self.parse_relational_expr() {
            Ok(e) => e,
            Err(diag) => {
                return Err(diag);
            },
        };
        proof {
            self.lemma_tokens();
        }
        match self.peek_word.category {
            Category::EqEq | Category::Ne => {
                let eq_cat = self.peek_word.category;
                self.consume();
                let rhs_expr = match self.parse_equality_expr() {
                    Ok(e) => e,
                    Err(diag) => {
                        return Err(diag);
                    },
                };
                let eq_op = match eq_cat {
                    Category::EqEq => BinOp::Eq,
                    _ => BinOp::Ne,
                };
                Ok(Expr::BinaryOp(eq_op, Box::new(lhs_expr), Box::new(rhs_expr)))
            },
            _ => Ok(lhs_expr),
        }
    }

    /// A term: an equality, then optionally `*` or `/` and a term.
    pub fn parse_term(&mut self) -> (r: Result<Expr, Diag>)
        requires
            old(self).wf(),
        ensures
            final(self).moved(
                old(self),
                term(old(self).tokens(), old(self).cursor(), old(self).names()),
            ),
            viewed(r) == term(old(self).tokens(), old(self).cursor(), old(self).names()).result,
        decreases old(self).tokens().remaining(old(self).cursor()), 3int,
    {
        let lhs_expr = match self.parse_equality_expr() {
            Ok(e) => e,
            Err(diag) => {
                return Err(diag);
            },
        };
        proof {
            self.lemma_tokens();
        }
        match self.peek_word.category {
            Category::Star | Category::Slash => {
                let term_cat = self.peek_word.category;
                self.consume();
                let rhs_expr = match self.parse_term() {
                    Ok(e) => e,
                    Err(diag) => {
                        return Err(diag);
                    },
                };
                let term_op = match term_cat {
                    Category::Star => BinOp::Mult,
                    _ => BinOp::Div,
                };
                Ok(Expr::BinaryOp(term_op, Box::new(lhs_expr), Box::new(rhs_expr)))
            },
            _ => Ok(lhs_expr),
        }
    }

    /// An expression: a term, then optionally `+` or `-` and an expression.
    pub fn parse_expr(&mut self) -> (r: Result<Expr, Diag>)
        requires
            old(self).wf(),
        ensures
            final(self).moved(
                old(self),
                expr(old(self).tokens(), old(self).cursor(), old(self).names()),
            ),
            viewed(r) == expr(old(self).tokens(), old(self).cursor(), old(self).names()).result,
        decreases old(self).tokens().remaining(old(self).cursor()), 4int,
    {
        let lhs_expr = match self.parse_term() {
            Ok(e) => e,
            Err(diag) => {
                return Err(diag);
            },
        };
        proof {
            self.lemma_tokens();
        }
        match self.peek_word.category {
            Category::Plus | Category::Minus => {
                let expr_cat = self.peek_word.category;
                self.consume();
                let rhs_expr = match self.parse_expr() {
                    Ok(e) => e,
                    Err(diag) => {
                        return Err(diag);
                    },
                };
                let expr_op = match expr_cat {
                    Category::Plus => BinOp::Add,
                    _ => BinOp::Sub,
                };
                Ok(Expr::BinaryOp(expr_op, Box::new(lhs_expr), Box::new(rhs_expr)))
            },
            _ => Ok(lhs_expr),
        }
    }

    /// The name of a type.
    pub fn parse_ty(&mut self) -> (r: Result<Ty, Diag>)
        requires
            old(self).wf(),
        ensures
            final(self).moved(old(self), ty(old(self).tokens(), old(self).cursor(), old(self).names())),
            plain(r) == ty(old(self).tokens(), old(self).cursor(), old(self).names()).result,
    {
        proof {
            self.lemma_tokens();
        }
        let categories = vec![Category::Bool, Category::Int, Category::Float, Category::Str];
        assert(categories@ =~= type_categories());
        let ghost category = self.peek_word.category;
        assert(type_categories().contains(category) <==> (category == Category::Bool || category
            == Category::Int || category == Category::Float || category == Category::Str)) by {
            let cats = type_categories();
            assert(cats[0] == Category::Bool && cats[1] == Category::Int && cats[2]
                == Category::Float && cats[3] == Category::Str);
        }
        let ty_word = match self.expect_one_of_and_consume(categories) {
            Ok(word) => word,
            Err(diag) => {
                return Err(diag);
            },
        };
        let ty = match ty_word.category {
            Category::Bool => Ty::BoolTy,
            Category::Int => Ty::IntTy,
            Category::Float => Ty::FloatTy,
            _ => Ty::StrTy,
        };
        Ok(ty)
    }

    /// A declaration: `let`, an identifier, `:`, a type and `;`.
    pub fn parse_decl(&mut self) -> (r: Result<Decl, Diag>)
        requires
            old(self).wf(),
        ensures
            final(self).moved(
                old(self),
                decl(old(self).tokens(), old(self).cursor(), old(self).names()),
            ),
            plain(r) == decl(old(self).tokens(), old(self).cursor(), old(self).names()).result,
    {
        proof {
            self.lemma_tokens();
        }
        match self.expect_and_consume(Category::Let) {
            Ok(_) => {},
            Err(diag) => {
                return Err(diag);
            },
        }
        let ident = match self.parse_ident() {
            Ok(id) => id,
            Err(diag) => {
                return Err(diag);
            },
        };
        match self.expect_and_consume(Category::Colon) {
            Ok(_) => {},
            Err(diag) => {
                return Err(diag);
            },
        }
        let ty = match self.parse_ty() {
            Ok(t) => t,
            Err(diag) => {
                return Err(diag);
            },
        };
        match self.expect_and_consume(Category::Semi) {
            Ok(_) => {},
            Err(diag) => {
                return Err(diag);
            },
        }
        Ok(Decl { ident, ty })
    }

    /// What follows the name of the callee in a call: the arguments in parentheses, with a
    /// `,` between each two, and `;`.
    #[verifier::loop_isolation(false)]
    pub fn parse_call(&mut self, func_id: Ident) -> (r: Result<Stmt, Diag>)
        requires
            old(self).wf(),
        ensures
            final(self).moved(
                old(self),
                call_tail(old(self).tokens(), func_id, old(self).cursor(), old(self).names()),
            ),
            viewed(r) == call_tail(
                old(self).tokens(),
                func_id,
                old(self).cursor(),
                old(self).names(),
            ).result,
    {
        proof {
            self.lemma_tokens();
        }
        let ghost t = self.tokens();
        match self.expect_and_consume(Category::OpenParen) {
            Ok(_) => {},
            Err(diag) => {
                return Err(diag);
            },
        }
        let ghost first = self.cursor();
        let ghost first_names = self.names();
        let ghost all = if t.category(first) == Category::CloseParen {
            Parsed::done(Seq::<ExprView>::empty(), 0, first_names)
        } else {
            arguments(t, first, first_names)
        };
        let mut args: Vec<Expr> = Vec::new();
        let mut more = self.peek_word.category != Category::CloseParen;
        assert(exprs_view(args@) + seq![] =~= seq![]);
        while more
            invariant
                self.wf(),
                self.file() == old(self).file(),
                self.tokens() == t,
                self.origin() == old(self).origin(),
                self.reported_before() == old(self).reported_before(),
                first <= self.cursor(),
                more ==> all == continued(
                    exprs_view(args@),
                    (self.cursor() - first) as nat,
                    arguments(t, self.cursor(), self.names()),
                ),
                !more ==> all == Parsed::done(
                    exprs_view(args@),
                    (self.cursor() - first) as nat,
                    self.names(),
                ) && t.category(self.cursor()) == Category::CloseParen,
            decreases t.remaining(self.cursor()), more as int,
        {
            let ghost before = exprs_view(args@);
            let ghost at = self.cursor();
            let ghost at_names = self.names();
            let arg = match self.parse_expr() {
                Ok(e) => e,
                Err(diag) => {
                    return Err(diag);
                },
            };
            proof {
                self.lemma_tokens();
            }
            args.push(arg);
            proof {
                assert(exprs_view(args@) =~= before.push(arg@));
                let rest = arguments(t, self.cursor() + 1, self.names());
                if t.category(self.cursor()) == Category::Comma {
                    if rest.result is Ok {
                        assert(before + (seq![arg@] + rest.result->Ok_0) =~= before.push(arg@)
                            + rest.result->Ok_0);
                    }
                } else if t.category(self.cursor()) == Category::CloseParen {
                    assert(before + seq![arg@] =~= before.push(arg@));
                }
            }
            if self.peek_word.category == Category::CloseParen {
                more = false;
            } else {
                match self.expect_and_consume(Category::Comma) {
                    Ok(_) => {},
                    Err(diag) => {
                        return Err(diag);
                    },
                }
            }
        }
        match self.expect_and_consume(Category::CloseParen) {
            Ok(_) => {},
            Err(diag) => {
                return Err(diag);
            },
        }
        match self.expect_and_consume(Category::Semi) {
            Ok(_) => {},
            Err(diag) => {
                return Err(diag);
            },
        }
        Ok(Stmt::Call(func_id, args))
    }

    /// An assignment or a call: an identifier, then either the arguments of a call, or `=`,
    /// an expression and `;`.
    pub fn parse_assignment(&mut self) -> (r: Result<Stmt, Diag>)
        requires
            old(self).wf(),
        ensures
            final(self).moved(
                old(self),
                assignment(old(self).tokens(), old(self).cursor(), old(self).names()),
            ),
            viewed(r) == assignment(
                old(self).tokens(),
                old(self).cursor(),
                old(self).names(),
            ).result,
    {
        proof {
            self.lemma_tokens();
        }
        let ident = match self.parse_ident() {
            Ok(id) => id,
            Err(diag) => {
                return Err(diag);
            },
        };
        proof {
            self.lemma_tokens();
        }
        if self.peek_word.category == Category::OpenParen {
            return self.parse_call(ident);
        }
        match self.expect_and_consume(Category::Eq) {
            Ok(_) => {},
            Err(diag) => {
                return Err(diag);
            },
        }
        let expr = match self.parse_expr() {
            Ok(e) => e,
            Err(diag) => {
                return Err(diag);
            },
        };
        match self.expect_and_consume(Category::Semi) {
            Ok(_) => {},
            Err(diag) => {
                return Err(diag);
            },
        }
        Ok(Stmt::Assign(ident, expr))
    }

    /// A selection: `if`, the condition, a block, and optionally `else` and a block.
    pub fn parse_selection(&mut self) -> (r: Result<Stmt, Diag>)
        requires
            old(self).wf(),
        ensures
            final(self).moved(
                old(self),
                selection(old(self).tokens(), old(self).cursor(), old(self).names()),
            ),
            viewed(r) == selection(
                old(self).tokens(),
                old(self).cursor(),
                old(self).names(),
            ).result,
        decreases old(self).tokens().remaining(old(self).cursor()), 2int,
    {
        proof {
            self.lemma_tokens();
        }
        match self.expect_and_consume(Category::If) {
            Ok(_) => {},
            Err(diag) => {
                return Err(diag);
            },
        }
        let cond_expr = match self.parse_expr() {
            Ok(e) => e,
            Err(diag) => {
                return Err(diag);
            },
        };
        let then_block = match self.parse_block() {
            Ok(b) => b,
            Err(diag) => {
                return Err(diag);
            },
        };
        proof {
            self.lemma_tokens();
        }
        let else_block = if self.peek_word.category == Category::Else {
            self.consume();
            let else_block = match self.parse_block() {
                Ok(b) => b,
                Err(diag) => {
                    return Err(diag);
                },
            };
            Some(Box::new(else_block))
        } else {
            None
        };
        Ok(Stmt::If(cond_expr, Box::new(then_block), else_block))
    }

    /// A repetition: `while`, the condition and a block.
    pub fn parse_repetition(&mut self) -> (r: Result<Stmt, Diag>)
        requires
            old(self).wf(),
        ensures
            final(self).moved(
                old(self),
                repetition(old(self).tokens(), old(self).cursor(), old(self).names()),
            ),
            viewed(r) == repetition(
                old(self).tokens(),
                old(self).cursor(),
                old(self).names(),
            ).result,
        decreases old(self).tokens().remaining(old(self).cursor()), 2int,
    {
        proof {
            self.lemma_tokens();
        }
        match self.expect_and_consume(Category::While) {
            Ok(_) => {},
            Err(diag) => {
                return Err(diag);
            },
        }
        let cond_expr = match self.parse_expr() {
            Ok(e) => e,
            Err(diag) => {
                return Err(diag);
            },
        };
        let block = match self.parse_block() {
            Ok(b) => b,
            Err(diag) => {
                return Err(diag);
            },
        };
        Ok(Stmt::While(cond_expr, Box::new(block)))
    }

    /// A block as a statement.
    pub fn parse_block_stmt(&mut self) -> (r: Result<Stmt, Diag>)
        requires
            old(self).wf(),
        ensures
            final(self).moved(
                old(self),
                block_statement(old(self).tokens(), old(self).cursor(), old(self).names()),
            ),
            viewed(r) == block_statement(
                old(self).tokens(),
                old(self).cursor(),
                old(self).names(),
            ).result,
        decreases old(self).tokens().remaining(old(self).cursor()), 2int,
    {
        match self.parse_block() {
            Ok(block) => Ok(Stmt::BlockStmt(Box::new(block))),
            Err(diag) => Err(diag),
        }
    }

    /// A statement: an assignment or a call, a selection, a repetition or a block.
    pub fn parse_command(&mut self) -> (r: Result<Stmt, Diag>)
        requires
            old(self).wf(),
        ensures
            final(self).moved(
                old(self),
                statement(old(self).tokens(), old(self).cursor(), old(self).names()),
            ),
            viewed(r) == statement(
                old(self).tokens(),
                old(self).cursor(),
                old(self).names(),
            ).result,
        decreases old(self).tokens().remaining(old(self).cursor()), 3int,
    {
        proof {
            self.lemma_tokens();
        }
        match self.peek_word.category {
            Category::Ident => self.parse_assignment(),
            Category::If => self.parse_selection(),
            Category::While => self.parse_repetition(),
            Category::OpenCurly => self.parse_block_stmt(),
            _ => {
                let expected = vec![
                    Category::Ident,
                    Category::If,
                    Category::While,
                    Category::OpenCurly,
                ];
                assert(expected@ =~= crate::grammar::statement_categories());
                Err(Diag::ExpectedOneOf { expected, got: self.peek_word })
            },
        }
    }

    /// Statements, as long as a word follows with which a statement begins. They are added
    /// to `commands` in order.
    #[verifier::loop_isolation(false)]
    fn parse_commands(&mut self, commands: &mut Vec<Stmt>) -> (r: Result<(), Diag>)
        requires
            old(self).wf(),
        ensures
            final(self).moved(
                old(self),
                statements(old(self).tokens(), old(self).cursor(), old(self).names()),
            ),
            final(commands)@.len() >= old(commands)@.len(),
            match r {
                Ok(_) => statements(
                    old(self).tokens(),
                    old(self).cursor(),
                    old(self).names(),
                ).result == Ok::<Seq<StmtView>, DiagView>(
                    stmts_view(final(commands)@).skip(old(commands)@.len() as int),
                ) && stmts_view(final(commands)@).take(old(commands)@.len() as int) == stmts_view(
                    old(commands)@,
                ),
                Err(diag) => statements(
                    old(self).tokens(),
                    old(self).cursor(),
                    old(self).names(),
                ).result == Err::<Seq<StmtView>, DiagView>(diag@),
            },
        decreases old(self).tokens().remaining(old(self).cursor()), 4int,
    {
        let ghost t = self.tokens();
        let ghost first = self.cursor();
        let ghost all = statements(t, first, self.names());
        let ghost given = commands@.len() as int;
        proof {
            assert(stmts_view(commands@).skip(given) =~= Seq::<StmtView>::empty());
            assert(Seq::<StmtView>::empty() + Seq::<StmtView>::empty() =~= Seq::<
                StmtView,
            >::empty());
            assert(stmts_view(commands@).take(given) =~= stmts_view(old(commands)@));
        }
        while self.is_start_of_statement()
            invariant
                self.wf(),
                self.file() == old(self).file(),
                self.tokens() == t,
                self.origin() == old(self).origin(),
                self.reported_before() == old(self).reported_before(),
                first <= self.cursor(),
                given <= commands@.len(),
                stmts_view(commands@).take(given) == stmts_view(old(commands)@),
                all == continued(
                    stmts_view(commands@).skip(given),
                    (self.cursor() - first) as nat,
                    statements(t, self.cursor(), self.names()),
                ),
            decreases t.remaining(self.cursor()),
        {
            let ghost before = stmts_view(commands@);
            proof {
                self.lemma_tokens();
            }
            let command = match self.parse_command() {
                Ok(s) => s,
                Err(diag) => {
                    return Err(diag);
                },
            };
            commands.push(command);
            proof {
                self.lemma_tokens();
                assert(stmts_view(commands@) =~= before.push(command@));
                assert(stmts_view(commands@).take(given) =~= before.take(given));
                assert(stmts_view(commands@).skip(given) =~= before.skip(given).push(command@));
                let rest = statements(t, self.cursor(), self.names());
                if rest.result is Ok {
                    assert(before.skip(given) + (seq![command@] + rest.result->Ok_0)
                        =~= before.skip(given).push(command@) + rest.result->Ok_0);
                }
            }
        }
        proof {
            let taken = stmts_view(commands@).skip(given);
            assert(taken + Seq::<StmtView>::empty() =~= taken);
        }
        Ok(())
    }

    /// A block: `{`, one statement or more, and `}`.
    pub fn parse_block(&mut self) -> (r: Result<Block, Diag>)
        requires
            old(self).wf(),
        ensures
            final(self).moved(
                old(self),
                block(old(self).tokens(), old(self).cursor(), old(self).names()),
            ),
            viewed(r) == block(old(self).tokens(), old(self).cursor(), old(self).names()).result,
        decreases old(self).tokens().remaining(old(self).cursor()), 1int,
    {
        proof {
            self.lemma_tokens();
        }
        let ghost t = self.tokens();
        match self.expect_and_consume(Category::OpenCurly) {
            Ok(_) => {},
            Err(diag) => {
                return Err(diag);
            },
        }
        let first_command = match self.parse_command() {
            Ok(s) => s,
            Err(diag) => {
                return Err(diag);
            },
        };
        let mut commands: Vec<Stmt> = Vec::new();
        commands.push(first_command);
        proof {
            self.lemma_tokens();
            assert(stmts_view(commands@) =~= seq![first_command@]);
        }
        match self.parse_commands(&mut commands) {
            Ok(_) => {},
            Err(diag) => {
                return Err(diag);
            },
        }
        proof {
            let views = stmts_view(commands@);
            assert(views =~= views.take(1) + views.skip(1));
        }
        match self.expect_and_consume(Category::CloseCurly) {
            Ok(_) => {},
            Err(diag) => {
                return Err(diag);
            },
        }
        let block = Block { stmts: commands };
        assert(block@.stmts =~= stmts_view(commands@));
        Ok(block)
    }

    /// A program: `program`, its name and `;`, then the declarations and the statements.
    /// Parsing stops at the first error. What follows the last statement is not looked at.
    #[verifier::loop_isolation(false)]
    pub fn parse_program(&mut self) -> (r: Result<Program, Diag>)
        requires
            old(self).wf(),
        ensures
            final(self).moved(
                old(self),
                program(old(self).tokens(), old(self).cursor(), old(self).names()),
            ),
            viewed(r) == program(old(self).tokens(), old(self).cursor(), old(self).names()).result,
    {
        proof {
            self.lemma_tokens();
        }
        let ghost t = self.tokens();
        match self.expect_and_consume(Category::Program) {
            Ok(_) => {},
            Err(diag) => {
                return Err(diag);
            },
        }
        let prog_name = match self.parse_ident() {
            Ok(id) => id,
            Err(diag) => {
                return Err(diag);
            },
        };
        match self.expect_and_consume(Category::Semi) {
            Ok(_) => {},
            Err(diag) => {
                return Err(diag);
            },
        }
        let mut decls: Vec<Decl> = Vec::new();
        let mut stmts: Vec<Stmt> = Vec::new();
        let ghost decls_at = self.cursor();
        let ghost all_decls = crate::grammar::decls(t, decls_at, self.names());
        proof {
            self.lemma_tokens();
            assert(decls@ + Seq::<Decl>::empty() =~= decls@);
        }
        while self.peek_word.category == Category::Let
            invariant
                self.wf(),
                self.file() == old(self).file(),
                self.tokens() == t,
                self.origin() == old(self).origin(),
                self.reported_before() == old(self).reported_before(),
                decls_at <= self.cursor(),
                all_decls == continued(
                    decls@,
                    (self.cursor() - decls_at) as nat,
                    crate::grammar::decls(t, self.cursor(), self.names()),
                ),
            decreases t.remaining(self.cursor()),
        {
            let ghost before = decls@;
            proof {
                self.lemma_tokens();
            }
            let d = match self.parse_decl() {
                Ok(d) => d,
                Err(diag) => {
                    return Err(diag);
                },
            };
            decls.push(d);
            proof {
                self.lemma_tokens();
                let rest = crate::grammar::decls(t, self.cursor(), self.names());
                if rest.result is Ok {
                    assert(before + (seq![d] + rest.result->Ok_0) =~= before.push(d)
                        + rest.result->Ok_0);
                }
            }
        }
        proof {
            assert(decls@ + Seq::<Decl>::empty() =~= decls@);
        }
        match self.parse_commands(&mut stmts) {
            Ok(_) => {},
            Err(diag) => {
                return Err(diag);
            },
        }
        proof {
            assert(stmts_view(stmts@).skip(0) =~= stmts_view(stmts@));
        }
        Ok(Program { name: prog_name, decls, stmts })
    }
}

} // verus!
