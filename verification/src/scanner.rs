//! The scanner: from source text to words.

use crate::errors::Diag;
use crate::errors::Emitter;
use crate::errors::Handler;
use crate::lexis::CharClass;
use crate::lexis::dec_digit;
use crate::lexis::ident_body;
use crate::lexis::ident_start;
use crate::lexis::is_word_of;
use crate::lexis::keyword_or_ident;
use crate::lexis::lemma_next_valid_word;
use crate::lexis::lemma_ascii_step;
use crate::lexis::lemma_next_word;
use crate::lexis::lemma_run_end;
use crate::lexis::next_valid_word;
use crate::lexis::next_word;
use crate::lexis::run_end;
use crate::lexis::scan_ident;
use crate::lexis::scan_number;
use crate::lexis::scan_string_literal;
use crate::lexis::scan_word;
use crate::lexis::skipped_errors;
use crate::source_map::char_at;
use crate::source_map::char_len_utf8;
use crate::source_map::decode_at;
use crate::source_map::is_boundary;
use crate::source_map::is_span_of;
use crate::source_map::lemma_step;
use crate::source_map::next_boundary;
use crate::source_map::BytePos;
use crate::source_map::Pos;
use crate::source_map::SourceFile;
use crate::source_map::Span;
use std::rc::Rc;
use vstd::prelude::*;
use vstd::string::*;
use vstd::utf8::*;

verus! {

/// The syntactic category of a word.
#[derive(Clone, Copy, Debug, PartialEq, Eq, Structural)]
pub enum Category {
    OpenParen,
    CloseParen,
    OpenCurly,
    CloseCurly,
    Ne,
    Eq,
    EqEq,
    Ge,
    Gt,
    Le,
    Lt,
    Star,
    Slash,
    Plus,
    Minus,
    Not,
    Comma,
    Colon,
    Semi,
    Program,
    Let,
    Int,
    Bool,
    Float,
    Str,
    If,
    Else,
    While,
    Ident,
    NumConst { is_float: bool },
    StrLit,
    Eof,
}

/// How a category is named in messages.
pub open spec fn category_text(category: Category) -> Seq<char> {
    match category {
        Category::OpenParen => "`(`"@,
        Category::CloseParen => "`)`"@,
        Category::OpenCurly => "`{`"@,
        Category::CloseCurly => "`}`"@,
        Category::Ne => "`!=`"@,
        Category::Eq => "`=`"@,
        Category::EqEq => "`==`"@,
        Category::Ge => "`>=`"@,
        Category::Gt => "`>`"@,
        Category::Le => "`<=`"@,
        Category::Lt => "`<`"@,
        Category::Star => "`*`"@,
        Category::Slash => "`/`"@,
        Category::Plus => "`+`"@,
        Category::Minus => "`-`"@,
        Category::Not => "`!`"@,
        Category::Comma => "`,`"@,
        Category::Colon => "`:`"@,
        Category::Semi => "`;`"@,
        Category::Program => "`program`"@,
        Category::Let => "`let`"@,
        Category::Int => "`int`"@,
        Category::Bool => "`bool`"@,
        Category::Float => "`float`"@,
        Category::Str => "`str`"@,
        Category::If => "`if`"@,
        Category::Else => "`else`"@,
        Category::While => "`while`"@,
        Category::Ident => "identifier"@,
        Category::NumConst { is_float: false } => "numeric integer constant"@,
        Category::NumConst { is_float: true } => "numeric floating point constant"@,
        Category::StrLit => "string literal"@,
        Category::Eof => "`<end of file>`"@,
    }
}

impl Category {
    /// How the category is named in messages.
    pub fn describe(&self) -> (text: &'static str)
        ensures
            text@ == category_text(*self),
    {
        match self {
            Category::OpenParen => "`(`",
            Category::CloseParen => "`)`",
            Category::OpenCurly => "`{`",
            Category::CloseCurly => "`}`",
            Category::Ne => "`!=`",
            Category::Eq => "`=`",
            Category::EqEq => "`==`",
            Category::Ge => "`>=`",
            Category::Gt => "`>`",
            Category::Le => "`<=`",
            Category::Lt => "`<`",
            Category::Star => "`*`",
            Category::Slash => "`/`",
            Category::Plus => "`+`",
            Category::Minus => "`-`",
            Category::Not => "`!`",
            Category::Comma => "`,`",
            Category::Colon => "`:`",
            Category::Semi => "`;`",
            Category::Program => "`program`",
            Category::Let => "`let`",
            Category::Int => "`int`",
            Category::Bool => "`bool`",
            Category::Float => "`float`",
            Category::Str => "`str`",
            Category::If => "`if`",
            Category::Else => "`else`",
            Category::While => "`while`",
            Category::Ident => "identifier",
            Category::NumConst { is_float: false } => "numeric integer constant",
            Category::NumConst { is_float: true } => "numeric floating point constant",
            Category::StrLit => "string literal",
            Category::Eof => "`<end of file>`",
        }
    }
}

/// A word: its category and the span of its text.
#[derive(Debug, Clone, Copy, PartialEq, Eq, Structural)]
pub struct Word {
    pub category: Category,
    pub lexeme: Span,
}

impl Word {
    /// The word that stands for the end of the text. It has no place in the text and carries
    /// the dummy span.
    pub open spec fn end_of_file() -> Word {
        Word { category: Category::Eof, lexeme: Span::dummy_span() }
    }

    #[verifier::when_used_as_spec(end_of_file)]
    pub fn eof() -> (w: Word)
        ensures
            w == Word::end_of_file(),
    {
        Word { category: Category::Eof, lexeme: Span::dummy() }
    }
}

/// Whether `c` is white space. This names what `char::is_whitespace` answers: whether the
/// character has the Unicode property `White_Space`.
pub uninterp spec fn white_space(c: char) -> bool;

/// `char::is_whitespace` answers whether the character has the Unicode property `White_Space`;
/// `white_space` is the name of that answer.
pub assume_specification[ char::is_whitespace ](c: char) -> (b: bool)
    ensures
        b == white_space(c),
;

/// Whether two strings hold the same characters.
pub fn str_eq(a: &str, b: &str) -> (same: bool)
    ensures
        same == (a@ == b@),
{
    let x = a.as_bytes();
    let y = b.as_bytes();
    proof {
        encode_utf8_decode_utf8(a@);
        encode_utf8_decode_utf8(b@);
    }
    if x.len() != y.len() {
        return false;
    }
    let n: usize = x.len();
    let mut i: usize = 0;
    while i < n
        invariant
            i <= n,
            n == x@.len(),
            n == y@.len(),
            x@ == encode_utf8(a@),
            y@ == encode_utf8(b@),
            forall|k: int| 0 <= k < i ==> x@[k] == y@[k],
        decreases n - i,
    {
        if x[i] != y[i] {
            assert(x@[i as int] != y@[i as int]);
            return false;
        }
        i = i + 1;
    }
    assert(x@ =~= y@);
    true
}

/// The category of a word made of identifier characters.
pub fn keyword_category(text: &str) -> (category: Category)
    ensures
        category == keyword_or_ident(text@),
{
    if str_eq(text, "program") {
        Category::Program
    } else if str_eq(text, "let") {
        Category::Let
    } else if str_eq(text, "int") {
        Category::Int
    } else if str_eq(text, "bool") {
        Category::Bool
    } else if str_eq(text, "float") {
        Category::Float
    } else if str_eq(text, "str") {
        Category::Str
    } else if str_eq(text, "if") {
        Category::If
    } else if str_eq(text, "else") {
        Category::Else
    } else if str_eq(text, "while") {
        Category::While
    } else {
        Category::Ident
    }
}

/// Whether `c` is a character that may continue an identifier.
pub fn is_ident_body(c: Option<char>) -> (b: bool)
    ensures
        b == (c matches Some(ch) && ident_body(ch)),
{
    match c {
        Some(ch) => ('a' <= ch && ch <= 'z') || ('A' <= ch && ch <= 'Z') || ('0' <= ch && ch
            <= '9') || ch == '_',
        None => false,
    }
}

/// Whether `c` is a character that may begin an identifier.
fn is_ident_start(c: Option<char>) -> (b: bool)
    ensures
        b == (c matches Some(ch) && ident_start(ch)),
{
    match c {
        Some(ch) => ('a' <= ch && ch <= 'z') || ('A' <= ch && ch <= 'Z') || ch == '_',
        None => false,
    }
}

/// Whether `c` is a decimal digit.
fn is_dec_digit(c: Option<char>) -> (b: bool)
    ensures
        b == (c matches Some(ch) && dec_digit(ch)),
{
    match c {
        Some(ch) => '0' <= ch && ch <= '9',
        None => false,
    }
}

/// Whether `c` is a white space character.
pub fn is_whitespace(c: Option<char>) -> (b: bool)
    ensures
        b == (c matches Some(ch) && white_space(ch)),
{
    match c {
        Some(ch) => ch.is_whitespace(),
        None => false,
    }
}

/// The scanner: a cursor over a source text that gives one word at each step. It looks one
/// character ahead.
pub struct Scanner {
    source_file: Rc<SourceFile>,
    peek_ch: Option<char>,
    pos: BytePos,
    next_pos: BytePos,
}

impl Scanner {
    /// The file that is scanned.
    pub closed spec fn file(&self) -> SourceFile {
        *self.source_file
    }

    /// The text that is scanned, as bytes.
    pub open spec fn text(&self) -> Seq<u8> {
        self.file().bytes()
    }

    /// The offset of the character that the scanner looks at.
    pub closed spec fn position(&self) -> int {
        self.pos.0 as int
    }

    /// The scanner stands at a boundary of the text and holds the character found there.
    pub closed spec fn wf(&self) -> bool {
        &&& self.source_file.wf()
        &&& is_boundary(self.text(), self.pos.0 as int)
        &&& self.peek_ch == char_at(self.text(), self.pos.0 as int)
        &&& self.next_pos.0 == next_boundary(self.text(), self.pos.0 as int)
    }

    /// A scanner at the start of the text of `source_file`.
    pub fn new(source_file: Rc<SourceFile>) -> (scanner: Scanner)
        requires
            source_file.wf(),
        ensures
            scanner.wf(),
            scanner.file() == *source_file,
            scanner.position() == 0,
    {
        proof {
            source_file.lemma_text();
        }
        let peek_ch = decode_at(source_file.src(), 0);
        let next_pos = match peek_ch {
            Some(ch) => BytePos(char_len_utf8(ch)),
            None => BytePos(0),
        };
        Scanner { source_file, peek_ch, pos: BytePos(0), next_pos }
    }

    /// The file that is scanned.
    pub fn source_file(&self) -> (file: &Rc<SourceFile>)
        ensures
            **file == self.file(),
    {
        &self.source_file
    }

    /// The character that the scanner looks at; none at the end of the text.
    pub closed spec fn peeked(&self) -> Option<char> {
        self.peek_ch
    }

    /// The character that the scanner looks at; none at the end of the text.
    pub(crate) fn peek_ch(&self) -> (c: Option<char>)
        ensures
            c == self.peeked(),
    {
        self.peek_ch
    }

    /// The offset of the character that the scanner looks at.
    pub(crate) fn pos(&self) -> (pos: BytePos)
        ensures
            pos.0 == self.position(),
    {
        self.pos
    }

    /// Whether the scanner looks at `c`.
    pub(crate) fn ch_is(&self, c: char) -> (b: bool)
        ensures
            b == (self.peeked() == Some(c)),
    {
        match self.peek_ch {
            Some(ch) => ch == c,
            None => false,
        }
    }

    /// Whether the scanner stands at the end of the text.
    pub(crate) fn is_eof(&self) -> (b: bool)
        ensures
            b == (self.peeked() is None),
    {
        self.peek_ch.is_none()
    }

    /// The scanner stands at a boundary of well-formed text.
    pub proof fn lemma_position(&self)
        requires
            self.wf(),
        ensures
            self.file().wf(),
            valid_utf8(self.text()),
            self.text().len() <= usize::MAX,
            is_boundary(self.text(), self.position()),
            is_boundary(self.text(), self.text().len() as int),
            self.peeked() == char_at(self.text(), self.position()),
    {
        self.file().lemma_text();
    }

    /// Advances the scanner by one character.
    pub(crate) fn bump(&mut self)
        requires
            old(self).wf(),
        ensures
            final(self).wf(),
            final(self).file() == old(self).file(),
            final(self).position() == next_boundary(old(self).text(), old(self).position()),
    {
        proof {
            self.file().lemma_text();
            if self.pos.0 < self.text().len() {
                lemma_step(self.text(), self.pos.0 as int);
            }
        }
        let next_ch = decode_at(self.source_file.src(), self.next_pos.0);
        match next_ch {
            Some(ch) => {
                proof {
                    lemma_step(self.text(), self.next_pos.0 as int);
                }
                self.peek_ch = Some(ch);
                self.pos = self.next_pos;
                self.next_pos = self.next_pos + Pos::from_usize(char_len_utf8(ch));
            },
            None => {
                self.peek_ch = None;
                self.pos = self.next_pos;
            },
        }
    }

    /// Scans the identifier or keyword that begins where the scanner stands.
    fn scan_ident(&mut self) -> (r: Result<Word, Diag>)
        requires
            old(self).wf(),
            old(self).position() < old(self).text().len(),
        ensures
            final(self).wf(),
            final(self).file() == old(self).file(),
            r == scan_ident(old(self).text(), old(self).position()).result,
            final(self).position() == scan_ident(old(self).text(), old(self).position()).end,
    {
        let ghost text = self.text();
        let ghost file = self.file();
        let id_start_pos = self.pos;
        proof {
            self.lemma_position();
            lemma_step(text, self.position());
        }
        self.bump();
        let ghost body_start = self.position();
        while is_ident_body(self.peek_ch)
            invariant
                self.wf(),
                self.file() == file,
                text == file.bytes(),
                run_end(text, self.position(), CharClass::IdentBody) == run_end(
                    text,
                    body_start,
                    CharClass::IdentBody,
                ),
            decreases text.len() - self.position(),
        {
            proof {
                self.lemma_position();
                lemma_step(text, self.position());
            }
            self.bump();
        }
        let lexeme = Span { start: id_start_pos, end: self.pos };
        proof {
            self.lemma_position();
            lemma_run_end(text, body_start, CharClass::IdentBody);
        }
        let category = keyword_category(self.source_file.span_to_snippet(lexeme));
        Ok(Word { category, lexeme })
    }

    /// Scans the number that begins where the scanner stands.
    fn scan_number(&mut self) -> (r: Result<Word, Diag>)
        requires
            old(self).wf(),
            old(self).position() < old(self).text().len(),
        ensures
            final(self).wf(),
            final(self).file() == old(self).file(),
            r == scan_number(old(self).text(), old(self).position()).result,
            final(self).position() == scan_number(old(self).text(), old(self).position()).end,
    {
        let ghost text = self.text();
        let ghost file = self.file();
        let num_start_pos = self.pos;
        proof {
            self.lemma_position();
            lemma_step(text, self.position());
        }
        self.bump();
        let ghost int_start = self.position();
        while is_dec_digit(self.peek_ch)
            invariant
                self.wf(),
                self.file() == file,
                text == file.bytes(),
                run_end(text, self.position(), CharClass::Digit) == run_end(
                    text,
                    int_start,
                    CharClass::Digit,
                ),
            decreases text.len() - self.position(),
        {
            proof {
                self.lemma_position();
                lemma_step(text, self.position());
            }
            self.bump();
        }
        let mut is_float = false;
        if self.ch_is('.') {
            is_float = true;
            proof {
                self.lemma_position();
                lemma_ascii_step(text, self.position());
            }
            self.bump();
        }
        let ghost frac_start = self.position();
        while is_dec_digit(self.peek_ch)
            invariant
                self.wf(),
                self.file() == file,
                text == file.bytes(),
                run_end(text, self.position(), CharClass::Digit) == run_end(
                    text,
                    frac_start,
                    CharClass::Digit,
                ),
            decreases text.len() - self.position(),
        {
            proof {
                self.lemma_position();
                lemma_step(text, self.position());
            }
            self.bump();
        }
        let ghost exp_start = self.position();
        if self.ch_is('e') || self.ch_is('E') {
            let exponent_pos = self.pos;
            is_float = true;
            proof {
                self.lemma_position();
                lemma_ascii_step(text, self.position());
            }
            self.bump();
            if self.ch_is('-') || self.ch_is('+') {
                proof {
                    self.lemma_position();
                    lemma_ascii_step(text, self.position());
                }
                self.bump();
            }
            if !is_dec_digit(self.peek_ch) {
                return Err(Diag::MissingExponentDigits { exp_pos: exponent_pos });
            }
            proof {
                exp_start = self.position();
            }
        }
        while is_dec_digit(self.peek_ch)
            invariant
                self.wf(),
                self.file() == file,
                text == file.bytes(),
                run_end(text, self.position(), CharClass::Digit) == run_end(
                    text,
                    exp_start,
                    CharClass::Digit,
                ),
            decreases text.len() - self.position(),
        {
            proof {
                self.lemma_position();
                lemma_step(text, self.position());
            }
            self.bump();
        }
        if is_ident_start(self.peek_ch) {
            let start = self.pos;
            let ghost tail_start = self.position();
            while is_ident_body(self.peek_ch)
                invariant
                    self.wf(),
                    self.file() == file,
                    text == file.bytes(),
                    run_end(text, self.position(), CharClass::IdentBody) == run_end(
                        text,
                        tail_start,
                        CharClass::IdentBody,
                    ),
                decreases text.len() - self.position(),
            {
                proof {
                    self.lemma_position();
                    lemma_step(text, self.position());
                }
                self.bump();
            }
            let end = self.pos;
            Err(Diag::InvalidDigit { invalid_span: Span { start, end } })
        } else {
            Ok(
                Word {
                    category: Category::NumConst { is_float },
                    lexeme: Span { start: num_start_pos, end: self.pos },
                },
            )
        }
    }

    /// Scans the string literal that begins where the scanner stands.
    fn scan_string_literal(&mut self) -> (r: Result<Word, Diag>)
        requires
            old(self).wf(),
            char_at(old(self).text(), old(self).position()) == Some('"'),
        ensures
            final(self).wf(),
            final(self).file() == old(self).file(),
            r == scan_string_literal(old(self).text(), old(self).position()).result,
            final(self).position() == scan_string_literal(
                old(self).text(),
                old(self).position(),
            ).end,
    {
        let ghost text = self.text();
        let ghost file = self.file();
        let str_start_pos = self.pos;
        proof {
            self.lemma_position();
            lemma_step(text, self.position());
        }
        self.bump();
        let ghost body_start = self.position();
        while !(self.ch_is('"') || self.ch_is('\n') || self.is_eof())
            invariant
                self.wf(),
                self.file() == file,
                text == file.bytes(),
                run_end(text, self.position(), CharClass::StringBody) == run_end(
                    text,
                    body_start,
                    CharClass::StringBody,
                ),
            decreases text.len() - self.position(),
        {
            proof {
                self.lemma_position();
                lemma_step(text, self.position());
            }
            self.bump();
        }
        if self.ch_is('\n') || self.is_eof() {
            return Err(
                Diag::MissingTerminatingStringMark { str_start_pos, eol_pos: self.pos },
            );
        }
        proof {
            self.lemma_position();
            lemma_ascii_step(text, self.position());
        }
        self.bump();
        Ok(Word { category: Category::StrLit, lexeme: Span { start: str_start_pos, end: self.pos } })
    }

    /// Scans the word that begins where the scanner stands, at a character that is no
    /// white space.
    fn scan_word(&mut self) -> (r: Result<Word, Diag>)
        requires
            old(self).wf(),
            old(self).position() < old(self).text().len(),
        ensures
            final(self).wf(),
            final(self).file() == old(self).file(),
            r == scan_word(old(self).text(), old(self).position()).result,
            final(self).position() == scan_word(old(self).text(), old(self).position()).end,
    {
        let ghost text = self.text();
        proof {
            self.lemma_position();
            lemma_step(text, self.position());
        }
        let start_pos = self.pos;
        let c = self.peek_ch.unwrap();
        proof {
            if (c as u32) < 0x80 {
                lemma_ascii_step(text, self.position());
                if char_at(text, self.position() + 1) == Some('=') {
                    lemma_ascii_step(text, self.position() + 1);
                }
            }
        }
        let category = if c == '(' {
            self.bump();
            Category::OpenParen
        } else if c == ')' {
            self.bump();
            Category::CloseParen
        } else if c == '{' {
            self.bump();
            Category::OpenCurly
        } else if c == '}' {
            self.bump();
            Category::CloseCurly
        } else if c == '!' {
            self.bump();
            if self.ch_is('=') {
                self.bump();
                Category::Ne
            } else {
                Category::Not
            }
        } else if c == '=' {
            self.bump();
            if self.ch_is('=') {
                self.bump();
                Category::EqEq
            } else {
                Category::Eq
            }
        } else if c == '>' {
            self.bump();
            if self.ch_is('=') {
                self.bump();
                Category::Ge
            } else {
                Category::Gt
            }
        } else if c == '<' {
            self.bump();
            if self.ch_is('=') {
                self.bump();
                Category::Le
            } else {
                Category::Lt
            }
        } else if c == '*' {
            self.bump();
            Category::Star
        } else if c == '/' {
            self.bump();
            Category::Slash
        } else if c == '+' {
            self.bump();
            Category::Plus
        } else if c == '-' {
            self.bump();
            Category::Minus
        } else if c == ',' {
            self.bump();
            Category::Comma
        } else if c == ':' {
            self.bump();
            Category::Colon
        } else if c == ';' {
            self.bump();
            Category::Semi
        } else if is_ident_start(Some(c)) {
            return self.scan_ident();
        } else if is_dec_digit(Some(c)) {
            return self.scan_number();
        } else if c == '"' {
            return self.scan_string_literal();
        } else {
            let pos = self.pos;
            self.bump();
            return Err(Diag::UnknownCharacter { pos });
        };
        Ok(Word { category, lexeme: Span { start: start_pos, end: self.pos } })
    }

    /// Scans one word and moves behind it. White space before the word is skipped. The
    /// result is the word, or the lexical error found in its place; at the end of the text
    /// it is the end-of-file word.
    pub fn next_word(&mut self) -> (r: Result<Word, Diag>)
        requires
            old(self).wf(),
        ensures
            final(self).wf(),
            final(self).file() == old(self).file(),
            r == next_word(old(self).text(), old(self).position()).result,
            final(self).position() == next_word(old(self).text(), old(self).position()).end,
            r matches Ok(word) ==> word.category != Category::Eof ==> is_span_of(
                old(self).text(),
                word.lexeme,
            ),
    {
        let ghost text = self.text();
        let ghost file = self.file();
        let ghost from = self.position();
        proof {
            self.lemma_position();
            lemma_next_word(text, from);
        }
        while is_whitespace(self.peek_ch)
            invariant
                self.wf(),
                self.file() == file,
                text == file.bytes(),
                run_end(text, self.position(), CharClass::WhiteSpace) == run_end(
                    text,
                    from,
                    CharClass::WhiteSpace,
                ),
            decreases text.len() - self.position(),
        {
            proof {
                self.lemma_position();
                lemma_step(text, self.position());
            }
            self.bump();
        }
        proof {
            self.lemma_position();
        }
        if self.is_eof() {
            Ok(Word::eof())
        } else {
            self.scan_word()
        }
    }
}

/// The word stream: a scanner together with the channel to which it reports lexical errors.
/// It gives words only.
pub struct WordStream<'a, E: Emitter> {
    scanner: Scanner,
    handler: &'a Handler<E>,
    reported: Ghost<Seq<Diag>>,
}

impl<'a, E: Emitter> WordStream<'a, E> {
    /// The scanner that the stream draws on.
    pub closed spec fn scanner_view(&self) -> Scanner {
        self.scanner
    }

    /// The text that is scanned, as bytes.
    pub open spec fn text(&self) -> Seq<u8> {
        self.scanner_view().text()
    }

    /// The offset at which the next step of scanning begins.
    pub open spec fn position(&self) -> int {
        self.scanner_view().position()
    }

    /// The lexical errors that the stream has handed to its channel, in order.
    pub closed spec fn reported(&self) -> Seq<Diag> {
        self.reported@
    }

    /// The scanner stands at a boundary of its text.
    pub open spec fn wf(&self) -> bool {
        self.scanner_view().wf()
    }

    /// A word stream that draws on `scanner` and reports to `handler`.
    pub fn new(scanner: Scanner, handler: &'a Handler<E>) -> (stream: WordStream<'a, E>)
        ensures
            stream.scanner_view() == scanner,
            stream.reported() == Seq::<Diag>::empty(),
    {
        WordStream { scanner, handler, reported: Ghost(Seq::empty()) }
    }

    /// The scanner that the stream draws on.
    pub fn scanner(&self) -> (scanner: &Scanner)
        ensures
            *scanner == self.scanner_view(),
    {
        &self.scanner
    }

    /// The next word of the text. Each lexical error found before it is reported to the
    /// channel, whose answer is not heeded, and scanning goes on behind the error.
    pub fn next(&mut self) -> (word: Word)
        requires
            old(self).wf(),
        ensures
            final(self).wf(),
            final(self).scanner_view().file() == old(self).scanner_view().file(),
            (word, final(self).position()) == next_valid_word(old(self).text(), old(self).position()),
            final(self).reported() == old(self).reported() + skipped_errors(
                old(self).text(),
                old(self).position(),
            ),
            word.category != Category::Eof ==> is_word_of(old(self).text(), word),
    {
        proof {
            self.scanner.lemma_position();
            lemma_next_valid_word(self.text(), self.position());
        }
        let ghost text = self.text();
        let ghost file = self.scanner.file();
        let ghost from = self.position();
        loop
            invariant
                self.wf(),
                self.scanner.file() == file,
                file == old(self).scanner_view().file(),
                text == file.bytes(),
                from == old(self).position(),
                next_valid_word(text, self.position()) == next_valid_word(text, from),
                next_valid_word(text, from).0.category != Category::Eof ==> is_word_of(
                    text,
                    next_valid_word(text, from).0,
                ),
                self.reported() + skipped_errors(text, self.position()) == old(self).reported()
                    + skipped_errors(text, from),
            decreases text.len() - self.position(),
        {
            let ghost so_far = self.reported@;
            let ghost at = self.position();
            proof {
                self.scanner.lemma_position();
                lemma_next_word(text, at);
            }
            match self.scanner.next_word() {
                Ok(word) => {
                    assert(so_far + Seq::<Diag>::empty() =~= so_far);
                    return word;
                },
                Err(diag) => {
                    proof {
                        self.reported@ = so_far.push(diag);
                        assert(so_far.push(diag) + skipped_errors(text, self.position())
                            =~= so_far + (seq![diag] + skipped_errors(text, self.position())));
                    }
                    self.handler.report(diag);
                },
            }
        }
    }
}

} // verus!
