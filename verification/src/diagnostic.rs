//! Diagnostics: what the lexer and the parser report instead of stopping.

use vstd::prelude::*;
use crate::span::Span;

verus! {

/// How serious a diagnostic is.
#[derive(Debug, Clone, Copy, PartialEq, Eq, Structural)]
pub enum Severity {
    Error,
    Warning,
    Note,
}

/// A reported issue: a severity, a message and, where known, the place.
#[derive(Debug, Clone, PartialEq, Eq)]
pub struct Diagnostic {
    pub severity: Severity,
    pub message: String,
    pub span: Option<Span>,
}

/// The mathematical value of a [`Diagnostic`].
pub struct DiagnosticView {
    pub severity: Severity,
    pub message: Seq<char>,
    pub span: Option<Span>,
}

impl View for Diagnostic {
    type V = DiagnosticView;

    open spec fn view(&self) -> DiagnosticView {
        DiagnosticView { severity: self.severity, message: self.message@, span: self.span }
    }
}

/// The values of a sequence of diagnostics, in order.
pub open spec fn diagnostics_view(ds: Seq<Diagnostic>) -> Seq<DiagnosticView> {
    Seq::new(ds.len(), |i: int| ds[i]@)
}

/// The error diagnostic with the given message, anchored at the given span.
pub open spec fn error_at(message: Seq<char>, span: Span) -> DiagnosticView {
    DiagnosticView { severity: Severity::Error, message, span: Some(span) }
}

impl Diagnostic {
    /// An error with the given message and no span.
    #[must_use]
    pub fn error(message: String) -> (d: Diagnostic)
        ensures
            d@ == (DiagnosticView { severity: Severity::Error, message: message@, span: None }),
    {
        Diagnostic { severity: Severity::Error, message, span: None }
    }

    /// The same diagnostic, anchored at `span`.
    #[must_use]
    pub fn with_span(self, span: Span) -> (d: Diagnostic)
        ensures
            d@ == (DiagnosticView { severity: self@.severity, message: self@.message, span: Some(span) }),
    {
        let mut d = self;
        d.span = Some(span);
        d
    }
}

} // verus!
