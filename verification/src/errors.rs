//! Diagnostics: the errors that scanning and parsing give, and the channel that reports them.

use crate::scanner::category_text;
use crate::scanner::Category;
use crate::scanner::Word;
use crate::source_map::BytePos;
use crate::source_map::Span;
use vstd::prelude::*;
use vstd::string::*;

verus! {

/// What went wrong while scanning or parsing, with the positions needed to show it.
#[derive(Debug, PartialEq)]
#[allow(inconsistent_fields)]
pub enum Diag {
    TooManyErrors,
    /// A letter directly behind a number.
    InvalidDigit { invalid_span: Span },
    /// A number whose exponent has no digits.
    MissingExponentDigits { exp_pos: BytePos },
    /// A string literal that its line or the text ends before its closing quotation mark.
    MissingTerminatingStringMark { str_start_pos: BytePos, eol_pos: BytePos },
    /// A character that begins no word.
    UnknownCharacter { pos: BytePos },
    UnexpectedEndOfFile,
    ExpectedWord { expected: Category, got: Word },
    ExpectedOneOf { expected: Vec<Category>, got: Word },
}

/// The view of a diagnostic: the expected categories as a sequence.
#[allow(inconsistent_fields)]
pub ghost enum DiagView {
    TooManyErrors,
    InvalidDigit { invalid_span: Span },
    MissingExponentDigits { exp_pos: BytePos },
    MissingTerminatingStringMark { str_start_pos: BytePos, eol_pos: BytePos },
    UnknownCharacter { pos: BytePos },
    UnexpectedEndOfFile,
    ExpectedWord { expected: Category, got: Word },
    ExpectedOneOf { expected: Seq<Category>, got: Word },
}

impl View for Diag {
    type V = DiagView;

    open spec fn view(&self) -> DiagView {
        match self {
            Diag::TooManyErrors => DiagView::TooManyErrors,
            Diag::InvalidDigit { invalid_span } => DiagView::InvalidDigit {
                invalid_span: *invalid_span,
            },
            Diag::MissingExponentDigits { exp_pos } => DiagView::MissingExponentDigits {
                exp_pos: *exp_pos,
            },
            Diag::MissingTerminatingStringMark {
                str_start_pos,
                eol_pos,
            } => DiagView::MissingTerminatingStringMark {
                str_start_pos: *str_start_pos,
                eol_pos: *eol_pos,
            },
            Diag::UnknownCharacter { pos } => DiagView::UnknownCharacter { pos: *pos },
            Diag::UnexpectedEndOfFile => DiagView::UnexpectedEndOfFile,
            Diag::ExpectedWord { expected, got } => DiagView::ExpectedWord {
                expected: *expected,
                got: *got,
            },
            Diag::ExpectedOneOf { expected, got } => DiagView::ExpectedOneOf {
                expected: expected@,
                got: *got,
            },
        }
    }
}

/// The position at which a diagnostic is shown: where the offending text begins, and offset 0
/// for a diagnostic that carries no position.
pub open spec fn location_of_diag(diag: DiagView) -> BytePos {
    match diag {
        DiagView::InvalidDigit { invalid_span } => invalid_span.start,
        DiagView::MissingExponentDigits { exp_pos } => exp_pos,
        DiagView::MissingTerminatingStringMark { str_start_pos, .. } => str_start_pos,
        DiagView::UnknownCharacter { pos } => pos,
        DiagView::ExpectedWord { got, .. } => got.lexeme.start,
        DiagView::ExpectedOneOf { got, .. } => got.lexeme.start,
        _ => BytePos(0),
    }
}

/// The names of `categories`, with `, ` between each two.
pub open spec fn joined(categories: Seq<Category>) -> Seq<char>
    decreases categories.len(),
{
    if categories.len() == 0 {
        Seq::empty()
    } else if categories.len() == 1 {
        category_text(categories[0])
    } else {
        joined(categories.drop_last()) + ", "@ + category_text(categories.last())
    }
}

/// The message of a diagnostic.
pub open spec fn message_of(diag: DiagView) -> Seq<char> {
    match diag {
        DiagView::TooManyErrors => "too many errors"@,
        DiagView::InvalidDigit { .. } => "invalid digit"@,
        DiagView::MissingExponentDigits { .. } => "missing exponent digits for decimal literal"@,
        DiagView::MissingTerminatingStringMark {
            ..
        } => "missing terminating quotation mark for string literal"@,
        DiagView::UnknownCharacter { .. } => "unknown character"@,
        DiagView::UnexpectedEndOfFile => "unexpected end of file"@,
        DiagView::ExpectedWord { expected, got } => "expected "@ + category_text(expected)
            + ", but got "@ + category_text(got.category),
        DiagView::ExpectedOneOf { expected, got } => "expected one of "@ + joined(expected)
            + ", but got "@ + category_text(got.category),
    }
}

impl Diag {
    /// The message of the diagnostic.
    pub fn message(&self) -> (text: String)
        ensures
            text@ == message_of(self@),
    {
        match self {
            Diag::TooManyErrors => "too many errors".to_owned(),
            Diag::InvalidDigit { .. } => "invalid digit".to_owned(),
            Diag::MissingExponentDigits {
                ..
            } => "missing exponent digits for decimal literal".to_owned(),
            Diag::MissingTerminatingStringMark {
                ..
            } => "missing terminating quotation mark for string literal".to_owned(),
            Diag::UnknownCharacter { .. } => "unknown character".to_owned(),
            Diag::UnexpectedEndOfFile => "unexpected end of file".to_owned(),
            Diag::ExpectedWord { expected, got } => {
                let mut text = "expected ".to_owned();
                text.append(expected.describe());
                text.append(", but got ");
                text.append(got.category.describe());
                text
            },
            Diag::ExpectedOneOf { expected, got } => {
                let mut one_of = String::new();
                let n: usize = expected.len();
                let mut i: usize = 0;
                assert(expected@.subrange(0, 0) =~= Seq::<Category>::empty());
                while i < n
                    invariant
                        i <= n,
                        n == expected@.len(),
                        one_of@ == joined(expected@.subrange(0, i as int)),
                    decreases n - i,
                {
                    let ghost shorter = expected@.subrange(0, i as int);
                    let ghost longer = expected@.subrange(0, i + 1);
                    proof {
                        assert(longer.drop_last() =~= shorter);
                        assert(longer.last() == expected@[i as int]);
                    }
                    if i > 0 {
                        one_of.append(", ");
                    } else {
                        assert(Seq::<char>::empty() + category_text(expected@[0])
                            =~= category_text(expected@[0]));
                    }
                    one_of.append(expected[i].describe());
                    i = i + 1;
                }
                assert(expected@.subrange(0, n as int) =~= expected@);
                let mut text = "expected one of ".to_owned();
                text.append(one_of.as_str());
                text.append(", but got ");
                text.append(got.category.describe());
                text
            },
        }
    }

    /// The position at which the diagnostic is shown.
    pub fn location(&self) -> (pos: BytePos)
        ensures
            pos == location_of_diag(self@),
    {
        match self {
            Diag::InvalidDigit { invalid_span } => invalid_span.start,
            Diag::MissingExponentDigits { exp_pos } => *exp_pos,
            Diag::MissingTerminatingStringMark { str_start_pos, .. } => *str_start_pos,
            Diag::UnknownCharacter { pos } => *pos,
            Diag::ExpectedWord { got, .. } => got.lexeme.start,
            Diag::ExpectedOneOf { got, .. } => got.lexeme.start,
            _ => BytePos::dummy(),
        }
    }
}

/// A reporting policy: it is handed each diagnostic and says whether work should go on.
pub trait Emitter {
    fn emit(&self, diag: Diag) -> bool;
}

/// The policy that drops every diagnostic and always goes on.
pub struct IgnoringEmitter;

impl Emitter for IgnoringEmitter {
    fn emit(&self, diag: Diag) -> (go_on: bool)
        ensures
            go_on,
    {
        true
    }
}

/// The channel through which diagnostics are reported. It holds one policy and nothing else.
pub struct Handler<E: Emitter> {
    emitter: E,
}

impl<E: Emitter> Handler<E> {
    /// A channel that reports to `emitter`.
    pub fn with_emitter(emitter: E) -> (handler: Handler<E>)
        ensures
            handler.emitter() == emitter,
    {
        Handler { emitter }
    }

    /// The policy that the channel reports to.
    pub closed spec fn emitter(&self) -> E {
        self.emitter
    }

    /// Gives the policy back.
    pub fn into_emitter(self) -> (emitter: E)
        ensures
            emitter == self.emitter(),
    {
        self.emitter
    }

    /// Hands `diag` to the policy and returns its answer.
    pub fn report(&self, diag: Diag) -> (go_on: bool)
        ensures
            call_ensures(E::emit, (&self.emitter(), diag), go_on),
    {
        self.emitter.emit(diag)
    }
}

impl Handler<IgnoringEmitter> {
    /// A channel that drops every diagnostic.
    pub fn with_ignoring_emitter() -> (handler: Handler<IgnoringEmitter>)
        ensures
            handler.emitter() == IgnoringEmitter,
    {
        Handler { emitter: IgnoringEmitter }
    }
}

/// Reporting to the ignoring policy always says to go on.
pub proof fn lemma_ignoring_goes_on(handler: Handler<IgnoringEmitter>, diag: Diag, go_on: bool)
    requires
        call_ensures(IgnoringEmitter::emit, (&handler.emitter(), diag), go_on),
    ensures
        go_on,
{
}

} // verus!
