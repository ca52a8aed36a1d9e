//! A scanner whose words name their delimiters. `read`, `readln`, `write` and `writeln` are
//! keywords, and a number is one category, whatever follows it.

use crate::lexis::dec_digit;
use crate::lexis::ident_start;
use crate::lexis::keyword_or_ident;
use crate::lexis::lemma_ascii_step;
use crate::lexis::lemma_run_end;
use crate::lexis::punctuator;
use crate::lexis::run_end;
use crate::scanner::str_eq;
use crate::scanner::white_space;
use crate::lexis::CharClass;
use crate::source_map::char_at;
use crate::source_map::is_boundary;
use crate::source_map::is_span_of;
use crate::source_map::lemma_step;
use crate::source_map::next_boundary;
use crate::source_map::BytePos;
use crate::source_map::SourceFile;
use crate::source_map::Span;
use std::rc::Rc;
use vstd::prelude::*;
use vstd::string::*;
use vstd::utf8::*;

verus! {

/// What went wrong in scanning.
#[derive(Debug, PartialEq, Eq, Structural)]
pub enum ScanError {
    /// A number whose exponent has no digits.
    MissingExponentDigits { exp_pos: BytePos },
    /// A string literal that its line or the text ends before its closing quotation mark.
    MissingTerminatingStringMark { str_start_pos: BytePos, eol_pos: BytePos },
    /// A character that begins no word.
    UnknownCharacter { pos: BytePos },
}

impl ScanError {
    /// The message of the error.
    pub open spec fn message_text(&self) -> Seq<char> {
        match self {
            ScanError::MissingExponentDigits {
                ..
            } => "missing exponent digits for decimal literal"@,
            ScanError::MissingTerminatingStringMark {
                ..
            } => "missing terminating quotation mark for string literal"@,
            ScanError::UnknownCharacter { .. } => "unknown character"@,
        }
    }

    /// The message of the error.
    pub fn message(&self) -> (text: String)
        ensures
            text@ == self.message_text(),
    {
        match self {
            ScanError::MissingExponentDigits {
                ..
            } => "missing exponent digits for decimal literal".to_owned(),
            ScanError::MissingTerminatingStringMark {
                ..
            } => "missing terminating quotation mark for string literal".to_owned(),
            ScanError::UnknownCharacter { .. } => "unknown character".to_owned(),
        }
    }
}

/// The kinds of delimiters.
#[derive(Clone, Copy, Debug, PartialEq, Eq, Structural)]
pub enum Delim {
    Paren,
    Curly,
}

/// The syntactic category of a word.
#[derive(Clone, Copy, Debug, PartialEq, Eq, Structural)]
pub enum Category {
    OpenDelim(Delim),
    CloseDelim(Delim),
    Ne,
    Eq,
    EqEq,
    Ge,
    Gt,
    Le,
    Lt,
    Star,
    Slash,
    Plus,
    Minus,
    Not,
    Comma,
    Colon,
    Semi,
    Program,
    Let,
    Int,
    Bool,
    Float,
    Str,
    Read,
    Readln,
    Write,
    Writeln,
    If,
    Else,
    While,
    Ident,
    Num,
    StrLit,
    Eof,
}

/// A word: its category and the span of its text.
#[derive(Debug)]
pub struct Word {
    pub category: Category,
    pub lexeme: Span,
}

impl Word {
    /// The word that stands for the end of the text. It carries the dummy span.
    pub open spec fn end_of_file() -> Word {
        Word { category: Category::Eof, lexeme: Span::dummy_span() }
    }

    #[verifier::when_used_as_spec(end_of_file)]
    pub fn eof() -> (w: Word)
        ensures
            w == Word::end_of_file(),
    {
        Word { category: Category::Eof, lexeme: Span::dummy() }
    }
}

/// The category that answers to a category of `crate::scanner`: delimiters are named by
/// their kind, and numbers are one category.
pub open spec fn renamed(category: crate::scanner::Category) -> Category {
    match category {
        crate::scanner::Category::OpenParen => Category::OpenDelim(Delim::Paren),
        crate::scanner::Category::CloseParen => Category::CloseDelim(Delim::Paren),
        crate::scanner::Category::OpenCurly => Category::OpenDelim(Delim::Curly),
        crate::scanner::Category::CloseCurly => Category::CloseDelim(Delim::Curly),
        crate::scanner::Category::Ne => Category::Ne,
        crate::scanner::Category::Eq => Category::Eq,
        crate::scanner::Category::EqEq => Category::EqEq,
        crate::scanner::Category::Ge => Category::Ge,
        crate::scanner::Category::Gt => Category::Gt,
        crate::scanner::Category::Le => Category::Le,
        crate::scanner::Category::Lt => Category::Lt,
        crate::scanner::Category::Star => Category::Star,
        crate::scanner::Category::Slash => Category::Slash,
        crate::scanner::Category::Plus => Category::Plus,
        crate::scanner::Category::Minus => Category::Minus,
        crate::scanner::Category::Not => Category::Not,
        crate::scanner::Category::Comma => Category::Comma,
        crate::scanner::Category::Colon => Category::Colon,
        crate::scanner::Category::Semi => Category::Semi,
        crate::scanner::Category::Program => Category::Program,
        crate::scanner::Category::Let => Category::Let,
        crate::scanner::Category::Int => Category::Int,
        crate::scanner::Category::Bool => Category::Bool,
        crate::scanner::Category::Float => Category::Float,
        crate::scanner::Category::Str => Category::Str,
        crate::scanner::Category::If => Category::If,
        crate::scanner::Category::Else => Category::Else,
        crate::scanner::Category::While => Category::While,
        crate::scanner::Category::Ident => Category::Ident,
        crate::scanner::Category::NumConst { .. } => Category::Num,
        crate::scanner::Category::StrLit => Category::StrLit,
        crate::scanner::Category::Eof => Category::Eof,
    }
}

/// The word of category `category` whose text is `[start, end)`.
pub open spec fn word_at(category: Category, start: int, end: int) -> Word {
    Word { category, lexeme: Span { start: BytePos(start as usize), end: BytePos(end as usize) } }
}

/// The category of a word made of identifier characters: that of the keyword it spells, or
/// `Ident` if it spells none.
pub open spec fn keyword_or_ident_with_calls(text: Seq<char>) -> Category {
    if text == "read"@ {
        Category::Read
    } else if text == "readln"@ {
        Category::Readln
    } else if text == "write"@ {
        Category::Write
    } else if text == "writeln"@ {
        Category::Writeln
    } else {
        renamed(keyword_or_ident(text))
    }
}

/// What one step of scanning gives: a word or an error, and the offset at which scanning
/// goes on.
pub ghost struct Scan {
    pub result: Result<Word, ScanError>,
    pub end: int,
}

/// Scans the identifier or keyword that begins at `start`: the longest run of identifier
/// characters.
pub open spec fn scan_ident(text: Seq<u8>, start: int) -> Scan {
    let end = run_end(text, next_boundary(text, start), CharClass::IdentBody);
    Scan {
        result: Ok(
            word_at(
                keyword_or_ident_with_calls(decode_utf8(text.subrange(start, end))),
                start,
                end,
            ),
        ),
        end,
    }
}

/// Scans the number that begins at `start`: digits, then optionally a point and digits, then
/// optionally an exponent mark, a sign and digits. An exponent mark that no digit follows is
/// an error at the mark.
pub open spec fn scan_number(text: Seq<u8>, start: int) -> Scan {
    let int_end = run_end(text, next_boundary(text, start), CharClass::Digit);
    let frac_start = if char_at(text, int_end) == Some('.') {
        int_end + 1
    } else {
        int_end
    };
    let frac_end = run_end(text, frac_start, CharClass::Digit);
    let has_exp = char_at(text, frac_end) == Some('e') || char_at(text, frac_end) == Some('E');
    let sign_pos = frac_end + 1;
    let has_sign = char_at(text, sign_pos) == Some('-') || char_at(text, sign_pos) == Some('+');
    let exp_start = if has_sign {
        sign_pos + 1
    } else {
        sign_pos
    };
    let exp_has_digit = char_at(text, exp_start) matches Some(c) && dec_digit(c);
    if has_exp && !exp_has_digit {
        Scan {
            result: Err(ScanError::MissingExponentDigits { exp_pos: BytePos(frac_end as usize) }),
            end: exp_start,
        }
    } else {
        let num_end = if has_exp {
            run_end(text, exp_start, CharClass::Digit)
        } else {
            frac_end
        };
        Scan { result: Ok(word_at(Category::Num, start, num_end)), end: num_end }
    }
}

/// Scans the string literal whose opening quotation mark stands at `start`: up to the next
/// quotation mark, which belongs to the word. A line feed or the end of the text before it is
/// an error, and scanning goes on there.
pub open spec fn scan_string_literal(text: Seq<u8>, start: int) -> Scan {
    let stop = run_end(text, next_boundary(text, start), CharClass::StringBody);
    if char_at(text, stop) == Some('"') {
        Scan { result: Ok(word_at(Category::StrLit, start, stop + 1)), end: stop + 1 }
    } else {
        Scan {
            result: Err(
                ScanError::MissingTerminatingStringMark {
                    str_start_pos: BytePos(start as usize),
                    eol_pos: BytePos(stop as usize),
                },
            ),
            end: stop,
        }
    }
}

/// Scans the word that begins at `start`, where a character that is no white space stands.
pub open spec fn scan_word(text: Seq<u8>, start: int) -> Scan {
    let c = char_at(text, start).unwrap();
    let next = next_boundary(text, start);
    match punctuator(c, char_at(text, next)) {
        Some((category, width)) => Scan {
            result: Ok(word_at(renamed(category), start, start + width)),
            end: start + width,
        },
        None => if ident_start(c) {
            scan_ident(text, start)
        } else if dec_digit(c) {
            scan_number(text, start)
        } else if c == '"' {
            scan_string_literal(text, start)
        } else {
            Scan {
                result: Err(ScanError::UnknownCharacter { pos: BytePos(start as usize) }),
                end: next,
            }
        },
    }
}

/// One step of scanning from `pos`: white space is skipped; at the end of the text the step
/// gives the end-of-file word, and otherwise the word or error that begins there.
pub open spec fn next_word(text: Seq<u8>, pos: int) -> Scan {
    let start = run_end(text, pos, CharClass::WhiteSpace);
    if start >= text.len() {
        Scan { result: Ok(Word::end_of_file()), end: start }
    } else {
        scan_word(text, start)
    }
}

/// One step of scanning from a boundary of well-formed text ends at a boundary of the text.
/// Unless it gives the end-of-file word it moves forward, and a word that it gives has the
/// scanned text as its lexeme: what lies between the end of the white space before the word
/// and the offset at which scanning goes on.
pub proof fn lemma_next_word(text: Seq<u8>, pos: int)
    requires
        valid_utf8(text),
        is_boundary(text, pos),
        text.len() <= usize::MAX,
    ensures
        ({
            let start = run_end(text, pos, CharClass::WhiteSpace);
            let scan = next_word(text, pos);
            &&& pos <= start <= scan.end <= text.len()
            &&& is_boundary(text, scan.end)
            &&& if start == text.len() {
                scan.result == Ok::<Word, ScanError>(Word::end_of_file()) && scan.end == start
            } else {
                &&& start < scan.end
                &&& scan.result matches Ok(word) ==> {
                    &&& word.category != Category::Eof
                    &&& word.lexeme == (Span {
                        start: BytePos(start as usize),
                        end: BytePos(scan.end as usize),
                    })
                    &&& is_span_of(text, word.lexeme)
                }
            }
        }),
{
    lemma_run_end(text, pos, CharClass::WhiteSpace);
    let start = run_end(text, pos, CharClass::WhiteSpace);
    if start < text.len() {
        lemma_step(text, start);
        let c = char_at(text, start).unwrap();
        let next = next_boundary(text, start);
        match punctuator(c, char_at(text, next)) {
            Some((category, width)) => {
                lemma_ascii_step(text, start);
                if width == 2 {
                    lemma_ascii_step(text, start + 1);
                }
            },
            None => {
                if ident_start(c) {
                    lemma_run_end(text, next, CharClass::IdentBody);
                } else if dec_digit(c) {
                    lemma_number_end(text, start);
                } else if c == '"' {
                    lemma_ascii_step(text, start);
                    let stop = run_end(text, start + 1, CharClass::StringBody);
                    lemma_run_end(text, start + 1, CharClass::StringBody);
                    if char_at(text, stop) == Some('"') {
                        lemma_ascii_step(text, stop);
                    }
                }
            },
        }
    }
}

/// Scanning a number from a boundary before the end of well-formed text ends at a later
/// boundary of the text.
pub proof fn lemma_number_end(text: Seq<u8>, start: int)
    requires
        valid_utf8(text),
        is_boundary(text, start),
        start < text.len() <= usize::MAX,
    ensures
        start < scan_number(text, start).end <= text.len(),
        is_boundary(text, scan_number(text, start).end),
{
    lemma_step(text, start);
    let int_end = run_end(text, next_boundary(text, start), CharClass::Digit);
    lemma_run_end(text, next_boundary(text, start), CharClass::Digit);
    let frac_start = if char_at(text, int_end) == Some('.') {
        int_end + 1
    } else {
        int_end
    };
    if char_at(text, int_end) == Some('.') {
        lemma_ascii_step(text, int_end);
    }
    let frac_end = run_end(text, frac_start, CharClass::Digit);
    lemma_run_end(text, frac_start, CharClass::Digit);
    if char_at(text, frac_end) == Some('e') || char_at(text, frac_end) == Some('E') {
        lemma_ascii_step(text, frac_end);
        let sign_pos = frac_end + 1;
        let has_sign = char_at(text, sign_pos) == Some('-') || char_at(text, sign_pos) == Some(
            '+',
        );
        if has_sign {
            lemma_ascii_step(text, sign_pos);
        }
        let exp_start = if has_sign {
            sign_pos + 1
        } else {
            sign_pos
        };
        lemma_run_end(text, exp_start, CharClass::Digit);
    }
}

/// The category of a word made of identifier characters.
pub fn keyword_category(text: &str) -> (category: Category)
    ensures
        category == keyword_or_ident_with_calls(text@),
{
    if str_eq(text, "read") {
        Category::Read
    } else if str_eq(text, "readln") {
        Category::Readln
    } else if str_eq(text, "write") {
        Category::Write
    } else if str_eq(text, "writeln") {
        Category::Writeln
    } else if str_eq(text, "program") {
        Category::Program
    } else if str_eq(text, "let") {
        Category::Let
    } else if str_eq(text, "int") {
        Category::Int
    } else if str_eq(text, "bool") {
        Category::Bool
    } else if str_eq(text, "float") {
        Category::Float
    } else if str_eq(text, "str") {
        Category::Str
    } else if str_eq(text, "if") {
        Category::If
    } else if str_eq(text, "else") {
        Category::Else
    } else if str_eq(text, "while") {
        Category::While
    } else {
        Category::Ident
    }
}

/// Whether `c` is a white space character.
pub fn is_whitespace(c: Option<char>) -> (b: bool)
    ensures
        b == (c matches Some(ch) && white_space(ch)),
{
    match c {
        Some(ch) => ch.is_whitespace(),
        None => false,
    }
}

/// Whether `c` is a decimal digit.
fn is_dec_digit(c: Option<char>) -> (b: bool)
    ensures
        b == (c matches Some(ch) && dec_digit(ch)),
{
    match c {
        Some(ch) => '0' <= ch && ch <= '9',
        None => false,
    }
}

/// The scanner: a cursor over a source text that gives one word at each step.
pub struct Scanner {
    cursor: crate::scanner::Scanner,
}

impl Scanner {
    /// The file that is scanned.
    pub closed spec fn file(&self) -> SourceFile {
        self.cursor.file()
    }

    /// The text that is scanned, as bytes.
    pub open spec fn text(&self) -> Seq<u8> {
        self.file().bytes()
    }

    /// The offset of the character that the scanner looks at.
    pub closed spec fn position(&self) -> int {
        self.cursor.position()
    }

    /// The scanner stands at a boundary of the text and holds the character found there.
    pub closed spec fn wf(&self) -> bool {
        self.cursor.wf()
    }

    /// A scanner at the start of the text of `source_file`.
    pub fn new(source_file: Rc<SourceFile>) -> (scanner: Scanner)
        requires
            source_file.wf(),
        ensures
            scanner.wf(),
            scanner.file() == *source_file,
            scanner.position() == 0,
    {
        Scanner { cursor: crate::scanner::Scanner::new(source_file) }
    }

    /// Advances over the longest run of decimal digits.
    fn skip_digits(&mut self)
        requires
            old(self).wf(),
        ensures
            final(self).wf(),
            final(self).file() == old(self).file(),
            final(self).position() == run_end(
                old(self).text(),
                old(self).position(),
                CharClass::Digit,
            ),
    {
        let ghost text = self.text();
        let ghost from = self.position();
        proof {
            self.cursor.lemma_position();
        }
        while is_dec_digit(self.cursor.peek_ch())
            invariant
                self.wf(),
                self.file() == old(self).file(),
                text == self.text(),
                self.cursor.peeked() == char_at(text, self.position()),
                run_end(text, self.position(), CharClass::Digit) == run_end(
                    text,
                    from,
                    CharClass::Digit,
                ),
            decreases text.len() - self.position(),
        {
            proof {
                self.cursor.lemma_position();
                lemma_step(text, self.position());
            }
            self.cursor.bump();
            proof {
                self.cursor.lemma_position();
            }
        }
    }

    /// Scans the identifier or keyword that begins where the scanner stands.
    fn scan_ident(&mut self) -> (r: Result<Word, ScanError>)
        requires
            old(self).wf(),
            old(self).position() < old(self).text().len(),
        ensures
            final(self).wf(),
            final(self).file() == old(self).file(),
            r == scan_ident(old(self).text(), old(self).position()).result,
            final(self).position() == scan_ident(old(self).text(), old(self).position()).end,
    {
        let ghost text = self.text();
        let id_start_pos = self.cursor.pos();
        proof {
            self.cursor.lemma_position();
            lemma_step(text, self.position());
        }
        self.cursor.bump();
        let ghost body_start = self.position();
        proof {
            self.cursor.lemma_position();
        }
        while crate::scanner::is_ident_body(self.cursor.peek_ch())
            invariant
                self.wf(),
                self.file() == old(self).file(),
                text == self.text(),
                self.cursor.peeked() == char_at(text, self.position()),
                run_end(text, self.position(), CharClass::IdentBody) == run_end(
                    text,
                    body_start,
                    CharClass::IdentBody,
                ),
            decreases text.len() - self.position(),
        {
            proof {
                self.cursor.lemma_position();
                lemma_step(text, self.position());
            }
            self.cursor.bump();
            proof {
                self.cursor.lemma_position();
            }
        }
        let lexeme = Span { start: id_start_pos, end: self.cursor.pos() };
        proof {
            self.cursor.lemma_position();
            lemma_run_end(text, body_start, CharClass::IdentBody);
        }
        let category = keyword_category(self.cursor.source_file().span_to_snippet(lexeme));
        Ok(Word { category, lexeme })
    }

    /// Scans the number that begins where the scanner stands.
    fn scan_number(&mut self) -> (r: Result<Word, ScanError>)
        requires
            old(self).wf(),
            old(self).position() < old(self).text().len(),
        ensures
            final(self).wf(),
            final(self).file() == old(self).file(),
            r == scan_number(old(self).text(), old(self).position()).result,
            final(self).position() == scan_number(old(self).text(), old(self).position()).end,
    {
        let ghost text = self.text();
        let num_start_pos = self.cursor.pos();
        proof {
            self.cursor.lemma_position();
            lemma_step(text, self.position());
        }
        self.cursor.bump();
        self.skip_digits();
        proof {
            self.cursor.lemma_position();
        }
        if self.cursor.ch_is('.') {
            proof {
                lemma_ascii_step(text, self.position());
            }
            self.cursor.bump();
        }
        self.skip_digits();
        proof {
            self.cursor.lemma_position();
        }
        if self.cursor.ch_is('e') || self.cursor.ch_is('E') {
            let exponent_pos = self.cursor.pos();
            proof {
                lemma_ascii_step(text, self.position());
            }
            self.cursor.bump();
            proof {
                self.cursor.lemma_position();
            }
            if self.cursor.ch_is('-') || self.cursor.ch_is('+') {
                proof {
                    lemma_ascii_step(text, self.position());
                }
                self.cursor.bump();
            }
            proof {
                self.cursor.lemma_position();
            }
            if !is_dec_digit(self.cursor.peek_ch()) {
                return Err(ScanError::MissingExponentDigits { exp_pos: exponent_pos });
            }
            self.skip_digits();
        }
        Ok(
            Word {
                category: Category::Num,
                lexeme: Span { start: num_start_pos, end: self.cursor.pos() },
            },
        )
    }

    /// Scans the string literal that begins where the scanner stands.
    fn scan_string_literal(&mut self) -> (r: Result<Word, ScanError>)
        requires
            old(self).wf(),
            char_at(old(self).text(), old(self).position()) == Some('"'),
        ensures
            final(self).wf(),
            final(self).file() == old(self).file(),
            r == scan_string_literal(old(self).text(), old(self).position()).result,
            final(self).position() == scan_string_literal(
                old(self).text(),
                old(self).position(),
            ).end,
    {
        let ghost text = self.text();
        let str_start_pos = self.cursor.pos();
        proof {
            self.cursor.lemma_position();
            lemma_step(text, self.position());
        }
        self.cursor.bump();
        let ghost body_start = self.position();
        proof {
            self.cursor.lemma_position();
        }
        while !(self.cursor.ch_is('"') || self.cursor.ch_is('\n') || self.cursor.is_eof())
            invariant
                self.wf(),
                self.file() == old(self).file(),
                text == self.text(),
                self.cursor.peeked() == char_at(text, self.position()),
                run_end(text, self.position(), CharClass::StringBody) == run_end(
                    text,
                    body_start,
                    CharClass::StringBody,
                ),
            decreases text.len() - self.position(),
        {
            proof {
                self.cursor.lemma_position();
                lemma_step(text, self.position());
            }
            self.cursor.bump();
            proof {
                self.cursor.lemma_position();
            }
        }
        if self.cursor.ch_is('\n') || self.cursor.is_eof() {
            return Err(
                ScanError::MissingTerminatingStringMark {
                    str_start_pos,
                    eol_pos: self.cursor.pos(),
                },
            );
        }
        proof {
            self.cursor.lemma_position();
            lemma_ascii_step(text, self.position());
        }
        self.cursor.bump();
        Ok(
            Word {
                category: Category::StrLit,
                lexeme: Span { start: str_start_pos, end: self.cursor.pos() },
            },
        )
    }

    /// Scans the word that begins where the scanner stands, at a character that is no
    /// white space.
    fn scan_word(&mut self) -> (r: Result<Word, ScanError>)
        requires
            old(self).wf(),
            old(self).position() < old(self).text().len(),
        ensures
            final(self).wf(),
            final(self).file() == old(self).file(),
            r == scan_word(old(self).text(), old(self).position()).result,
            final(self).position() == scan_word(old(self).text(), old(self).position()).end,
    {
        let ghost text = self.text();
        proof {
            self.cursor.lemma_position();
            lemma_step(text, self.position());
        }
        let start_pos = self.cursor.pos();
        let c = self.cursor.peek_ch().unwrap();
        proof {
            if (c as u32) < 0x80 {
                lemma_ascii_step(text, self.position());
                if char_at(text, self.position() + 1) == Some('=') {
                    lemma_ascii_step(text, self.position() + 1);
                }
            }
        }
        let category = if c == '(' {
            self.cursor.bump();
            Category::OpenDelim(Delim::Paren)
        } else if c == ')' {
            self.cursor.bump();
            Category::CloseDelim(Delim::Paren)
        } else if c == '{' {
            self.cursor.bump();
            Category::OpenDelim(Delim::Curly)
        } else if c == '}' {
            self.cursor.bump();
            Category::CloseDelim(Delim::Curly)
        } else if c == '!' {
            self.cursor.bump();
            proof {
                self.cursor.lemma_position();
            }
            if self.cursor.ch_is('=') {
                self.cursor.bump();
                Category::Ne
            } else {
                Category::Not
            }
        } else if c == '=' {
            self.cursor.bump();
            proof {
                self.cursor.lemma_position();
            }
            if self.cursor.ch_is('=') {
                self.cursor.bump();
                Category::EqEq
            } else {
                Category::Eq
            }
        } else if c == '>' {
            self.cursor.bump();
            proof {
                self.cursor.lemma_position();
            }
            if self.cursor.ch_is('=') {
                self.cursor.bump();
                Category::Ge
            } else {
                Category::Gt
            }
        } else if c == '<' {
            self.cursor.bump();
            proof {
                self.cursor.lemma_position();
            }
            if self.cursor.ch_is('=') {
                self.cursor.bump();
                Category::Le
            } else {
                Category::Lt
            }
        } else if c == '*' {
            self.cursor.bump();
            Category::Star
        } else if c == '/' {
            self.cursor.bump();
            Category::Slash
        } else if c == '+' {
            self.cursor.bump();
            Category::Plus
        } else if c == '-' {
            self.cursor.bump();
            Category::Minus
        } else if c == ',' {
            self.cursor.bump();
            Category::Comma
        } else if c == ':' {
            self.cursor.bump();
            Category::Colon
        } else if c == ';' {
            self.cursor.bump();
            Category::Semi
        } else if ('a' <= c && c <= 'z') || ('A' <= c && c <= 'Z') || c == '_' {
            return self.scan_ident();
        } else if '0' <= c && c <= '9' {
            return self.scan_number();
        } else if c == '"' {
            return self.scan_string_literal();
        } else {
            let pos = self.cursor.pos();
            self.cursor.bump();
            return Err(ScanError::UnknownCharacter { pos });
        };
        Ok(Word { category, lexeme: Span { start: start_pos, end: self.cursor.pos() } })
    }

    /// Scans one word and moves behind it. White space before the word is skipped. The
    /// result is the word, or the error found in its place; at the end of the text it is the
    /// end-of-file word.
    pub fn next_word(&mut self) -> (r: Result<Word, ScanError>)
        requires
            old(self).wf(),
        ensures
            final(self).wf(),
            final(self).file() == old(self).file(),
            r == next_word(old(self).text(), old(self).position()).result,
            final(self).position() == next_word(old(self).text(), old(self).position()).end,
            r matches Ok(word) ==> word.category != Category::Eof ==> is_span_of(
                old(self).text(),
                word.lexeme,
            ),
    {
        let ghost text = self.text();
        let ghost from = self.position();
        proof {
            self.cursor.lemma_position();
            lemma_next_word(text, from);
        }
        while is_whitespace(self.cursor.peek_ch())
            invariant
                self.wf(),
                self.file() == old(self).file(),
                text == self.text(),
                self.cursor.peeked() == char_at(text, self.position()),
                run_end(text, self.position(), CharClass::WhiteSpace) == run_end(
                    text,
                    from,
                    CharClass::WhiteSpace,
                ),
            decreases text.len() - self.position(),
        {
            proof {
                self.cursor.lemma_position();
                lemma_step(text, self.position());
            }
            self.cursor.bump();
            proof {
                self.cursor.lemma_position();
            }
        }
        proof {
            self.cursor.lemma_position();
        }
        if self.cursor.is_eof() {
            Ok(Word::eof())
        } else {
            self.scan_word()
        }
    }
}

} // verus!
