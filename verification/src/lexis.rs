//! The lexical grammar: what the scanner finds in a text, as functions from the text and an
//! offset to a word or an error and the offset at which scanning goes on.

use crate::errors::Diag;
use crate::scanner::white_space;
use crate::scanner::Category;
use crate::scanner::Word;
use crate::source_map::char_at;
use crate::source_map::is_boundary;
use crate::source_map::is_span_of;
use crate::source_map::lemma_no_boundary_within;
use crate::source_map::lemma_step;
use crate::source_map::next_boundary;
use crate::source_map::snippet;
use crate::source_map::BytePos;
use crate::source_map::Span;
use vstd::prelude::*;
use vstd::utf8::*;

verus! {

/// A decimal digit.
pub open spec fn dec_digit(c: char) -> bool {
    '0' <= c <= '9'
}

/// A character that may begin an identifier: a letter of the Latin alphabet or `_`.
pub open spec fn ident_start(c: char) -> bool {
    ('a' <= c <= 'z') || ('A' <= c <= 'Z') || c == '_'
}

/// A character that may continue an identifier: one that may begin it, or a decimal digit.
pub open spec fn ident_body(c: char) -> bool {
    ident_start(c) || dec_digit(c)
}

/// A character that may stand inside a string literal: any but `"` and the line feed.
pub open spec fn string_body(c: char) -> bool {
    c != '"' && c != '\n'
}

/// The classes of characters of which the scanner skips whole runs.
pub ghost enum CharClass {
    WhiteSpace,
    Digit,
    IdentBody,
    StringBody,
}

/// Whether `c` belongs to `class`.
pub open spec fn in_class(class: CharClass, c: char) -> bool {
    match class {
        CharClass::WhiteSpace => white_space(c),
        CharClass::Digit => dec_digit(c),
        CharClass::IdentBody => ident_body(c),
        CharClass::StringBody => string_body(c),
    }
}

/// The end of the longest run of characters of `class` that begins at `pos`: the first offset
/// at or after `pos` at which the text ends or a character outside the class stands.
/// (The measure allows for the four bytes that a character takes at most.)
pub open spec fn run_end(text: Seq<u8>, pos: int, class: CharClass) -> int
    decreases text.len() + 4 - pos,
{
    match char_at(text, pos) {
        Some(c) => if in_class(class, c) {
            run_end(text, next_boundary(text, pos), class)
        } else {
            pos
        },
        None => pos,
    }
}

/// The word of category `category` whose text is `[start, end)`.
pub open spec fn word_at(category: Category, start: int, end: int) -> Word {
    Word { category, lexeme: Span { start: BytePos(start as usize), end: BytePos(end as usize) } }
}

/// The category of a word made of identifier characters: that of the keyword it spells, or
/// `Ident` if it spells none.
pub open spec fn keyword_or_ident(text: Seq<char>) -> Category {
    if text == "program"@ {
        Category::Program
    } else if text == "let"@ {
        Category::Let
    } else if text == "int"@ {
        Category::Int
    } else if text == "bool"@ {
        Category::Bool
    } else if text == "float"@ {
        Category::Float
    } else if text == "str"@ {
        Category::Str
    } else if text == "if"@ {
        Category::If
    } else if text == "else"@ {
        Category::Else
    } else if text == "while"@ {
        Category::While
    } else {
        Category::Ident
    }
}

/// The operator or punctuation mark that begins with `c`, given the character `following`
/// it, and the number of characters it takes; none if `c` begins no such word. Two characters
/// are taken wherever they form an operator.
pub open spec fn punctuator(c: char, following: Option<char>) -> Option<(Category, int)> {
    let eq_follows = following == Some('=');
    if c == '(' {
        Some((Category::OpenParen, 1))
    } else if c == ')' {
        Some((Category::CloseParen, 1))
    } else if c == '{' {
        Some((Category::OpenCurly, 1))
    } else if c == '}' {
        Some((Category::CloseCurly, 1))
    } else if c == '!' {
        if eq_follows {
            Some((Category::Ne, 2))
        } else {
            Some((Category::Not, 1))
        }
    } else if c == '=' {
        if eq_follows {
            Some((Category::EqEq, 2))
        } else {
            Some((Category::Eq, 1))
        }
    } else if c == '>' {
        if eq_follows {
            Some((Category::Ge, 2))
        } else {
            Some((Category::Gt, 1))
        }
    } else if c == '<' {
        if eq_follows {
            Some((Category::Le, 2))
        } else {
            Some((Category::Lt, 1))
        }
    } else if c == '*' {
        Some((Category::Star, 1))
    } else if c == '/' {
        Some((Category::Slash, 1))
    } else if c == '+' {
        Some((Category::Plus, 1))
    } else if c == '-' {
        Some((Category::Minus, 1))
    } else if c == ',' {
        Some((Category::Comma, 1))
    } else if c == ':' {
        Some((Category::Colon, 1))
    } else if c == ';' {
        Some((Category::Semi, 1))
    } else {
        None
    }
}

/// What one step of scanning gives: a word or a lexical error, and the offset at which
/// scanning goes on.
pub ghost struct Scan {
    pub result: Result<Word, Diag>,
    pub end: int,
}

/// Scans the identifier or keyword that begins at `start`: the longest run of identifier
/// characters.
pub open spec fn scan_ident(text: Seq<u8>, start: int) -> Scan {
    let end = run_end(text, next_boundary(text, start), CharClass::IdentBody);
    Scan {
        result: Ok(word_at(keyword_or_ident(decode_utf8(text.subrange(start, end))), start, end)),
        end,
    }
}

/// Scans the number that begins at `start`: digits, then optionally a point and digits, then
/// optionally an exponent mark, a sign and digits. An exponent mark that no digit follows is
/// an error at the mark; a letter or `_` directly behind the number is an error that takes
/// the whole run of identifier characters.
pub open spec fn scan_number(text: Seq<u8>, start: int) -> Scan {
    let int_end = run_end(text, next_boundary(text, start), CharClass::Digit);
    let has_point = char_at(text, int_end) == Some('.');
    let frac_start = if has_point {
        int_end + 1
    } else {
        int_end
    };
    let frac_end = run_end(text, frac_start, CharClass::Digit);
    let has_exp = char_at(text, frac_end) == Some('e') || char_at(text, frac_end) == Some('E');
    let sign_pos = frac_end + 1;
    let has_sign = char_at(text, sign_pos) == Some('-') || char_at(text, sign_pos) == Some('+');
    let exp_start = if has_sign {
        sign_pos + 1
    } else {
        sign_pos
    };
    let exp_has_digit = char_at(text, exp_start) matches Some(c) && dec_digit(c);
    if has_exp && !exp_has_digit {
        Scan {
            result: Err(Diag::MissingExponentDigits { exp_pos: BytePos(frac_end as usize) }),
            end: exp_start,
        }
    } else {
        let num_end = if has_exp {
            run_end(text, exp_start, CharClass::Digit)
        } else {
            frac_end
        };
        if char_at(text, num_end) matches Some(c) && ident_start(c) {
            let end = run_end(text, num_end, CharClass::IdentBody);
            Scan {
                result: Err(
                    Diag::InvalidDigit {
                        invalid_span: Span {
                            start: BytePos(num_end as usize),
                            end: BytePos(end as usize),
                        },
                    },
                ),
                end,
            }
        } else {
            Scan {
                result: Ok(
                    word_at(Category::NumConst { is_float: has_point || has_exp }, start, num_end),
                ),
                end: num_end,
            }
        }
    }
}

/// Scans the string literal whose opening quotation mark stands at `start`: up to the next
/// quotation mark, which belongs to the word. A line feed or the end of the text before it is
/// an error, and scanning goes on there.
pub open spec fn scan_string_literal(text: Seq<u8>, start: int) -> Scan {
    let stop = run_end(text, next_boundary(text, start), CharClass::StringBody);
    if char_at(text, stop) == Some('"') {
        Scan { result: Ok(word_at(Category::StrLit, start, stop + 1)), end: stop + 1 }
    } else {
        Scan {
            result: Err(
                Diag::MissingTerminatingStringMark {
                    str_start_pos: BytePos(start as usize),
                    eol_pos: BytePos(stop as usize),
                },
            ),
            end: stop,
        }
    }
}

/// Scans the word that begins at `start`, where a character that is no white space stands.
pub open spec fn scan_word(text: Seq<u8>, start: int) -> Scan {
    let c = char_at(text, start).unwrap();
    let next = next_boundary(text, start);
    match punctuator(c, char_at(text, next)) {
        Some((category, width)) => Scan {
            result: Ok(word_at(category, start, start + width)),
            end: start + width,
        },
        None => if ident_start(c) {
            scan_ident(text, start)
        } else if dec_digit(c) {
            scan_number(text, start)
        } else if c == '"' {
            scan_string_literal(text, start)
        } else {
            Scan { result: Err(Diag::UnknownCharacter { pos: BytePos(start as usize) }), end: next }
        },
    }
}

/// One step of scanning from `pos`: white space is skipped; at the end of the text the step
/// gives the end-of-file word, and otherwise the word or error that begins there.
pub open spec fn next_word(text: Seq<u8>, pos: int) -> Scan {
    let start = run_end(text, pos, CharClass::WhiteSpace);
    if start >= text.len() {
        Scan { result: Ok(Word::end_of_file()), end: start }
    } else {
        scan_word(text, start)
    }
}

/// A run of a class ends at a boundary within the text, and there the text ends or a
/// character outside the class stands.
pub proof fn lemma_run_end(text: Seq<u8>, pos: int, class: CharClass)
    requires
        valid_utf8(text),
        is_boundary(text, pos),
    ensures
        pos <= run_end(text, pos, class) <= text.len(),
        is_boundary(text, run_end(text, pos, class)),
        char_at(text, run_end(text, pos, class)) matches Some(c) ==> !in_class(class, c),
    decreases text.len() - pos,
{
    if pos < text.len() {
        lemma_step(text, pos);
        if in_class(class, char_at(text, pos).unwrap()) {
            lemma_run_end(text, next_boundary(text, pos), class);
        }
    }
}

/// A run of a class holds characters of the class only: at every boundary from `pos` up to
/// the end of the run stands a character of the class.
pub proof fn lemma_run_members(text: Seq<u8>, pos: int, class: CharClass, at: int)
    requires
        valid_utf8(text),
        is_boundary(text, pos),
        is_boundary(text, at),
        pos <= at < run_end(text, pos, class),
    ensures
        char_at(text, at) matches Some(c) && in_class(class, c),
    decreases text.len() - pos,
{
    lemma_run_end(text, pos, class);
    if pos < at {
        lemma_step(text, pos);
        lemma_no_boundary_within(text, pos, at);
        lemma_run_members(text, next_boundary(text, pos), class, at);
    }
}

/// A character of the ASCII range takes one byte.
pub proof fn lemma_ascii_step(text: Seq<u8>, pos: int)
    requires
        valid_utf8(text),
        is_boundary(text, pos),
        char_at(text, pos) matches Some(c) && (c as u32) < 0x80,
    ensures
        next_boundary(text, pos) == pos + 1,
        pos + 1 <= text.len(),
        is_boundary(text, pos + 1),
        text[pos] == char_at(text, pos).unwrap() as u8,
{
    lemma_step(text, pos);
    let c = char_at(text, pos).unwrap();
    let code = c as u32;
    assert(code as u8 == leading_byte_width_1(code)) by (bit_vector)
        requires
            code < 0x80,
    ;
    assert(encode_scalar(code) =~= seq![leading_byte_width_1(code)]);
    assert(text.subrange(pos, next_boundary(text, pos))[0] == text[pos]);
}

/// What holds of a scan that begins at `start`: it ends at a later boundary of the text, and
/// a word that it gives is no end-of-file word and has the scanned text as its lexeme.
pub open spec fn scan_ok(text: Seq<u8>, start: int, scan: Scan) -> bool {
    &&& start < scan.end <= text.len()
    &&& is_boundary(text, scan.end)
    &&& scan.result matches Ok(w) ==> {
        &&& w.category != Category::Eof
        &&& w.lexeme == (Span { start: BytePos(start as usize), end: BytePos(scan.end as usize) })
        &&& is_span_of(text, w.lexeme)
    }
}

/// Scanning an identifier from a boundary before the end of well-formed text is a scan as
/// `scan_ok` describes.
pub proof fn lemma_scan_ident(text: Seq<u8>, start: int)
    requires
        valid_utf8(text),
        is_boundary(text, start),
        start < text.len() <= usize::MAX,
    ensures
        scan_ok(text, start, scan_ident(text, start)),
{
    lemma_step(text, start);
    lemma_run_end(text, next_boundary(text, start), CharClass::IdentBody);
}

/// Scanning a number from a boundary before the end of well-formed text is a scan as
/// `scan_ok` describes.
pub proof fn lemma_scan_number(text: Seq<u8>, start: int)
    requires
        valid_utf8(text),
        is_boundary(text, start),
        start < text.len() <= usize::MAX,
    ensures
        scan_ok(text, start, scan_number(text, start)),
{
    lemma_step(text, start);
    let int_end = run_end(text, next_boundary(text, start), CharClass::Digit);
    lemma_run_end(text, next_boundary(text, start), CharClass::Digit);
    let has_point = char_at(text, int_end) == Some('.');
    let frac_start = if has_point {
        int_end + 1
    } else {
        int_end
    };
    if has_point {
        lemma_ascii_step(text, int_end);
    }
    let frac_end = run_end(text, frac_start, CharClass::Digit);
    lemma_run_end(text, frac_start, CharClass::Digit);
    let has_exp = char_at(text, frac_end) == Some('e') || char_at(text, frac_end) == Some('E');
    if has_exp {
        lemma_ascii_step(text, frac_end);
        let sign_pos = frac_end + 1;
        let has_sign = char_at(text, sign_pos) == Some('-') || char_at(text, sign_pos) == Some(
            '+',
        );
        if has_sign {
            lemma_ascii_step(text, sign_pos);
        }
        let exp_start = if has_sign {
            sign_pos + 1
        } else {
            sign_pos
        };
        lemma_run_end(text, exp_start, CharClass::Digit);
        lemma_run_end(text, run_end(text, exp_start, CharClass::Digit), CharClass::IdentBody);
    } else {
        lemma_run_end(text, frac_end, CharClass::IdentBody);
    }
}

/// Scanning a string literal from its opening quotation mark in well-formed text is a scan as
/// `scan_ok` describes, and a word that it gives begins and ends with a quotation mark.
pub proof fn lemma_scan_string_literal(text: Seq<u8>, start: int)
    requires
        valid_utf8(text),
        is_boundary(text, start),
        text.len() <= usize::MAX,
        char_at(text, start) == Some('"'),
    ensures
        scan_ok(text, start, scan_string_literal(text, start)),
        scan_string_literal(text, start).result is Ok ==> {
            let end = scan_string_literal(text, start).end;
            &&& start + 2 <= end
            &&& text[start] == 0x22
            &&& text[end - 1] == 0x22
            &&& is_boundary(text, start + 1)
            &&& is_boundary(text, end - 1)
        },
{
    lemma_ascii_step(text, start);
    let stop = run_end(text, start + 1, CharClass::StringBody);
    lemma_run_end(text, start + 1, CharClass::StringBody);
    if char_at(text, stop) == Some('"') {
        lemma_ascii_step(text, stop);
    }
}

/// Scanning a word from a boundary before the end of well-formed text is a scan as `scan_ok`
/// describes.
pub proof fn lemma_scan_word(text: Seq<u8>, start: int)
    requires
        valid_utf8(text),
        is_boundary(text, start),
        start < text.len() <= usize::MAX,
    ensures
        scan_ok(text, start, scan_word(text, start)),
{
    lemma_step(text, start);
    let c = char_at(text, start).unwrap();
    let next = next_boundary(text, start);
    match punctuator(c, char_at(text, next)) {
        Some((category, width)) => {
            lemma_ascii_step(text, start);
            if width == 2 {
                lemma_ascii_step(text, start + 1);
            }
        },
        None => {
            if ident_start(c) {
                lemma_scan_ident(text, start);
            } else if dec_digit(c) {
                lemma_scan_number(text, start);
            } else if c == '"' {
                lemma_scan_string_literal(text, start);
            }
        },
    }
}

/// One step of scanning from a boundary of well-formed text skips white space and then
/// either finds the end of the text, or scans from there as `scan_ok` describes. Unless it
/// gives the end-of-file word, the step moves forward.
pub proof fn lemma_next_word(text: Seq<u8>, pos: int)
    requires
        valid_utf8(text),
        is_boundary(text, pos),
        text.len() <= usize::MAX,
    ensures
        ({
            let start = run_end(text, pos, CharClass::WhiteSpace);
            let scan = next_word(text, pos);
            &&& pos <= start <= scan.end <= text.len()
            &&& is_boundary(text, start)
            &&& is_boundary(text, scan.end)
            &&& if start == text.len() {
                scan.result == Ok::<Word, Diag>(Word::end_of_file()) && scan.end == start
            } else {
                scan_ok(text, start, scan)
            }
        }),
{
    lemma_run_end(text, pos, CharClass::WhiteSpace);
    let start = run_end(text, pos, CharClass::WhiteSpace);
    if start < text.len() {
        lemma_scan_word(text, start);
    }
}

/// The first word that scanning gives from `pos` on, where each lexical error is passed over,
/// and the offset at which scanning goes on behind that word. At the end of the text the
/// word is the end-of-file word. Defined on well-formed text, from a boundary.
pub open spec fn next_valid_word(text: Seq<u8>, pos: int) -> (Word, int)
    decreases text.len() - pos,
    when valid_utf8(text) && is_boundary(text, pos) && text.len() <= usize::MAX
{
    let scan = next_word(text, pos);
    match scan.result {
        Ok(word) => (word, scan.end),
        Err(_) => {
            proof {
                lemma_next_word(text, pos);
            }
            next_valid_word(text, scan.end)
        },
    }
}

/// The lexical errors that are passed over on the way from `pos` to the first word.
pub open spec fn skipped_errors(text: Seq<u8>, pos: int) -> Seq<Diag>
    decreases text.len() - pos,
    when valid_utf8(text) && is_boundary(text, pos) && text.len() <= usize::MAX
{
    let scan = next_word(text, pos);
    match scan.result {
        Ok(_) => Seq::empty(),
        Err(diag) => {
            proof {
                lemma_next_word(text, pos);
            }
            seq![diag] + skipped_errors(text, scan.end)
        },
    }
}

/// The offset at which scanning goes on after `n` words were drawn from `pos` on.
pub open spec fn position_after(text: Seq<u8>, pos: int, n: nat) -> int
    decreases n,
{
    if n == 0 {
        pos
    } else {
        position_after(text, next_valid_word(text, pos).1, (n - 1) as nat)
    }
}

/// The lexical errors that are passed over while `n` words are drawn from `pos` on, in the
/// order in which they are found.
pub open spec fn errors_within(text: Seq<u8>, pos: int, n: nat) -> Seq<Diag>
    decreases n,
{
    if n == 0 {
        Seq::empty()
    } else {
        skipped_errors(text, pos) + errors_within(
            text,
            next_valid_word(text, pos).1,
            (n - 1) as nat,
        )
    }
}

/// Drawing one word more: scanning goes on behind the word that is found from where it
/// stood, and the errors passed over on the way to that word come behind the others.
pub proof fn lemma_one_word_more(text: Seq<u8>, pos: int, n: nat)
    requires
        valid_utf8(text),
        is_boundary(text, pos),
        text.len() <= usize::MAX,
    ensures
        pos <= position_after(text, pos, n) <= text.len(),
        is_boundary(text, position_after(text, pos, n)),
        position_after(text, pos, n + 1) == next_valid_word(
            text,
            position_after(text, pos, n),
        ).1,
        errors_within(text, pos, n + 1) == errors_within(text, pos, n) + skipped_errors(
            text,
            position_after(text, pos, n),
        ),
    decreases n,
{
    lemma_next_valid_word(text, pos);
    if n == 0 {
        reveal_with_fuel(position_after, 2);
        reveal_with_fuel(errors_within, 2);
        assert(errors_within(text, pos, 1) =~= errors_within(text, pos, 0) + skipped_errors(
            text,
            pos,
        ));
    } else {
        let next = next_valid_word(text, pos).1;
        lemma_one_word_more(text, next, (n - 1) as nat);
        assert(errors_within(text, pos, n + 1) =~= errors_within(text, pos, n) + skipped_errors(
            text,
            position_after(text, pos, n),
        ));
    }
}

/// At the end of the text no word and no error is found any more.
pub proof fn lemma_at_end(text: Seq<u8>)
    requires
        valid_utf8(text),
        text.len() <= usize::MAX,
    ensures
        next_valid_word(text, text.len() as int) == (Word::end_of_file(), text.len() as int),
        skipped_errors(text, text.len() as int) == Seq::<Diag>::empty(),
        words_from(text, text.len() as int) == Seq::<Word>::empty(),
{
    is_char_boundary_start_end_of_seq(text);
    lemma_next_word(text, text.len() as int);
    lemma_next_valid_word(text, text.len() as int);
}

/// The words of the text from `pos` on, in order, without the lexical errors between them
/// and without the end-of-file word. Defined on well-formed text, from a boundary.
pub open spec fn words_from(text: Seq<u8>, pos: int) -> Seq<Word>
    decreases text.len() - pos,
    when valid_utf8(text) && is_boundary(text, pos) && text.len() <= usize::MAX
{
    let scan = next_word(text, pos);
    match scan.result {
        Ok(word) => if word.category == Category::Eof {
            Seq::empty()
        } else {
            proof {
                lemma_next_word(text, pos);
            }
            seq![word] + words_from(text, scan.end)
        },
        Err(_) => {
            proof {
                lemma_next_word(text, pos);
            }
            words_from(text, scan.end)
        },
    }
}

/// The snippet of a scanned word is the text that was scanned: what lies between the end of
/// the white space before the word and the offset at which scanning goes on.
pub proof fn lemma_word_snippet(text: Seq<u8>, pos: int)
    requires
        valid_utf8(text),
        is_boundary(text, pos),
        text.len() <= usize::MAX,
    ensures
        next_word(text, pos).result matches Ok(word) ==> word.category != Category::Eof ==> {
            &&& is_span_of(text, word.lexeme)
            &&& snippet(text, word.lexeme) == text.subrange(
                run_end(text, pos, CharClass::WhiteSpace),
                next_word(text, pos).end,
            )
        },
{
    lemma_next_word(text, pos);
}

/// Scanning recovers from lexical errors: where a step of scanning gives an error, it has
/// moved forward, and the words found from there on are the words that the word stream
/// gives. One character that begins no word is passed over by itself.
pub proof fn lemma_recovery(text: Seq<u8>, pos: int)
    requires
        valid_utf8(text),
        is_boundary(text, pos),
        text.len() <= usize::MAX,
    ensures
        next_word(text, pos).result matches Err(diag) ==> {
            let start = run_end(text, pos, CharClass::WhiteSpace);
            let end = next_word(text, pos).end;
            &&& pos <= start < end <= text.len()
            &&& is_boundary(text, end)
            &&& next_valid_word(text, pos) == next_valid_word(text, end)
            &&& words_from(text, pos) == words_from(text, end)
            &&& skipped_errors(text, pos) == seq![diag] + skipped_errors(text, end)
            &&& diag matches Diag::UnknownCharacter { pos: at } ==> at.0 == start && end
                == next_boundary(text, start)
        },
{
    lemma_next_word(text, pos);
    let start = run_end(text, pos, CharClass::WhiteSpace);
    if start < text.len() {
        lemma_step(text, start);
    }
}

/// A word of the text: it has a place in the text, between two boundaries, and a string
/// literal begins and ends with a quotation mark.
pub open spec fn is_word_of(text: Seq<u8>, word: Word) -> bool {
    &&& word.category != Category::Eof
    &&& word.lexeme.start.0 < word.lexeme.end.0
    &&& is_span_of(text, word.lexeme)
    &&& word.category == Category::StrLit ==> {
        &&& word.lexeme.start.0 + 2 <= word.lexeme.end.0
        &&& text[word.lexeme.start.0 as int] == 0x22
        &&& text[word.lexeme.end.0 - 1] == 0x22
        &&& is_boundary(text, word.lexeme.start.0 + 1)
        &&& is_boundary(text, word.lexeme.end.0 - 1)
    }
}

/// The first word found from a boundary of well-formed text is the end-of-file word or a word
/// of the text, and scanning goes on at a boundary behind it. The words from there on are the
/// words that follow it.
pub proof fn lemma_next_valid_word(text: Seq<u8>, pos: int)
    requires
        valid_utf8(text),
        is_boundary(text, pos),
        text.len() <= usize::MAX,
    ensures
        ({
            let (word, end) = next_valid_word(text, pos);
            &&& pos <= end <= text.len()
            &&& is_boundary(text, end)
            &&& if word.category == Category::Eof {
                &&& word == Word::end_of_file()
                &&& end == text.len()
                &&& words_from(text, pos) == Seq::<Word>::empty()
            } else {
                &&& pos < end
                &&& is_word_of(text, word)
                &&& pos <= word.lexeme.start.0
                &&& word.lexeme.end.0 == end
                &&& words_from(text, pos) == seq![word] + words_from(text, end)
            }
        }),
    decreases text.len() - pos,
{
    lemma_next_word(text, pos);
    let scan = next_word(text, pos);
    let start = run_end(text, pos, CharClass::WhiteSpace);
    match scan.result {
        Ok(word) => {
            if word.category == Category::StrLit {
                lemma_step(text, start);
                let c = char_at(text, start).unwrap();
                assert(c == '"' && punctuator(c, char_at(text, next_boundary(text, start)))
                    is None);
                lemma_scan_string_literal(text, start);
            }
        },
        Err(_) => {
            lemma_next_valid_word(text, scan.end);
        },
    }
}

/// The words of a text stand in the order of their places and do not overlap: each word
/// begins at or behind the offset from which the words are taken, and at or behind the end of
/// the word before it.
pub proof fn lemma_words_in_order(text: Seq<u8>, pos: int, k: int)
    requires
        valid_utf8(text),
        is_boundary(text, pos),
        text.len() <= usize::MAX,
        0 <= k < words_from(text, pos).len(),
    ensures
        pos <= words_from(text, pos)[k].lexeme.start.0,
        k > 0 ==> words_from(text, pos)[k - 1].lexeme.end.0 <= words_from(
            text,
            pos,
        )[k].lexeme.start.0,
    decreases k,
{
    lemma_next_valid_word(text, pos);
    let (word, end) = next_valid_word(text, pos);
    if k > 0 {
        lemma_words_in_order(text, end, k - 1);
        if k == 1 {
            assert(words_from(text, pos)[0] == word);
        }
    }
}

/// All the words from a boundary of well-formed text on are words of the text.
pub proof fn lemma_words_from(text: Seq<u8>, pos: int)
    requires
        valid_utf8(text),
        is_boundary(text, pos),
        text.len() <= usize::MAX,
    ensures
        forall|k: int|
            0 <= k < words_from(text, pos).len() ==> is_word_of(
                text,
                #[trigger] words_from(text, pos)[k],
            ),
    decreases text.len() - pos,
{
    lemma_next_valid_word(text, pos);
    let (word, end) = next_valid_word(text, pos);
    if word.category != Category::Eof {
        lemma_words_from(text, end);
    }
}

/// When as many words were drawn as the text holds, and one more, scanning stands at the end
/// of the text.
pub proof fn lemma_position_at_end(text: Seq<u8>, pos: int, n: nat)
    requires
        valid_utf8(text),
        is_boundary(text, pos),
        text.len() <= usize::MAX,
        n == words_from(text, pos).len(),
    ensures
        position_after(text, pos, n + 1) == text.len(),
    decreases n,
{
    lemma_next_valid_word(text, pos);
    reveal_with_fuel(position_after, 2);
    if n > 0 {
        lemma_position_at_end(text, next_valid_word(text, pos).1, (n - 1) as nat);
    }
}

} // verus!
