//! Diagnostics that are built up step by step: a report code, and the spans of the code
//! snippets that go with it.

use crate::source_map::BytePos;
use crate::source_map::Span;
use vstd::prelude::*;

verus! {

/// What went wrong, with the positions needed to show it.
#[derive(Debug, PartialEq, Eq, Structural)]
pub enum ReportCode {
    /// A number whose exponent has no digits.
    MissingExponentDigits { exp_pos: BytePos },
    /// A string literal without its closing quotation mark.
    MissingTerminatingStringMark { str_start_pos: BytePos, eol_pos: BytePos },
    /// A character that begins no word.
    UnknownCharacter { pos: BytePos },
    /// An error after which compiling cannot go on.
    FatalError,
}

/// A report code together with the spans of the code snippets that go with it.
pub struct Diagnostic {
    code: ReportCode,
    spans: Vec<Span>,
}

impl Diagnostic {
    /// The report code.
    pub closed spec fn code_view(&self) -> ReportCode {
        self.code
    }

    /// The spans, in the order in which they were added.
    pub closed spec fn spans_view(&self) -> Seq<Span> {
        self.spans@
    }

    /// The report code.
    pub fn code(&self) -> (code: &ReportCode)
        ensures
            *code == self.code_view(),
    {
        &self.code
    }

    /// The spans, in the order in which they were added.
    pub fn spans(&self) -> (spans: &Vec<Span>)
        ensures
            spans@ == self.spans_view(),
    {
        &self.spans
    }
}

/// A reporting policy: it is handed each diagnostic and says whether work should go on.
pub trait Emitter {
    fn emit(&self, diagnostic: Diagnostic) -> bool;
}

/// A diagnostic that is being built, and the handler that will emit it.
pub struct DiagnosticBuilder<'a, E: Emitter> {
    handler: &'a Handler<E>,
    diagnostic: Diagnostic,
}

impl<'a, E: Emitter> DiagnosticBuilder<'a, E> {
    /// The handler that will emit the diagnostic.
    pub closed spec fn handler(&self) -> Handler<E> {
        *self.handler
    }

    /// The diagnostic as built so far.
    pub closed spec fn diagnostic(&self) -> Diagnostic {
        self.diagnostic
    }

    fn with_diagnostic(handler: &'a Handler<E>, diagnostic: Diagnostic) -> (builder:
        DiagnosticBuilder<'a, E>)
        ensures
            builder.handler() == *handler,
            builder.diagnostic() == diagnostic,
    {
        DiagnosticBuilder { handler, diagnostic }
    }

    /// Adds a span to the diagnostic, behind those added before.
    pub fn span(self, s: Span) -> (builder: DiagnosticBuilder<'a, E>)
        ensures
            builder.handler() == self.handler(),
            builder.diagnostic().code_view() == self.diagnostic().code_view(),
            builder.diagnostic().spans_view() == self.diagnostic().spans_view().push(s),
    {
        let mut builder = self;
        builder.diagnostic.spans.push(s);
        builder
    }

    /// Hands the diagnostic to the policy of the handler and returns its answer.
    pub fn emit(self) -> (go_on: bool)
        ensures
            call_ensures(E::emit, (&self.handler().emitter(), self.diagnostic()), go_on),
    {
        self.handler.emitter.emit(self.diagnostic)
    }
}

/// The diagnostics handler. It holds one policy and nothing else.
pub struct Handler<E: Emitter> {
    emitter: E,
}

impl<E: Emitter> Handler<E> {
    /// The policy that the handler emits to.
    pub closed spec fn emitter(&self) -> E {
        self.emitter
    }

    /// A handler that emits to `emitter`.
    pub fn with_emitter(emitter: E) -> (handler: Handler<E>)
        ensures
            handler.emitter() == emitter,
    {
        Handler { emitter }
    }

    /// Begins a diagnostic with report code `code` and no spans.
    pub fn report<'a>(&'a self, code: ReportCode) -> (builder: DiagnosticBuilder<'a, E>)
        ensures
            builder.handler() == *self,
            builder.diagnostic().code_view() == code,
            builder.diagnostic().spans_view() == Seq::<Span>::empty(),
    {
        let diagnostic = Diagnostic { code, spans: Vec::new() };
        DiagnosticBuilder::with_diagnostic(self, diagnostic)
    }
}

} // verus!
