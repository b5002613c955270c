//! The shared diagnostic type emitted by every compiler stage.

use crate::span::Span;
use vstd::prelude::*;

verus! {

/// How serious a [`Diagnostic`] is.
///
/// `Error` means the artifact is invalid; `Warning` and `Info` are advisory.
#[derive(Debug, Clone, Copy, PartialEq, Eq, Hash, Structural)]
pub enum Severity {
    /// The input is invalid for this stage.
    Error,
    /// Advisory; the input is still valid.
    Warning,
    /// Informational only.
    Info,
}

/// A single message about a span of source.
///
/// `code` is an optional stable identifier for tooling; `code_description` is
/// an optional URL the `code` resolves to.
#[derive(Debug, PartialEq, Eq)]
pub struct Diagnostic {
    /// Severity of the message.
    pub severity: Severity,
    /// Source range the message refers to.
    pub span: Span,
    /// Optional stable diagnostic code for tooling.
    pub code: Option<String>,
    /// Optional URL the `code` resolves to.
    pub code_description: Option<String>,
    /// Human-readable description.
    pub message: String,
}

impl Clone for Diagnostic {
    fn clone(&self) -> (d: Self)
        ensures
            d == *self,
    {
        let code = match &self.code {
            Some(c) => Some(c.clone()),
            None => None,
        };
        let code_description = match &self.code_description {
            Some(c) => Some(c.clone()),
            None => None,
        };
        Diagnostic {
            severity: self.severity,
            span: self.span,
            code,
            code_description,
            message: self.message.clone(),
        }
    }
}

impl Diagnostic {
    /// Builds an `Error` diagnostic with no code.
    pub fn error(span: Span, message: &str) -> (d: Diagnostic)
        ensures
            d.severity == Severity::Error,
            d.span == span,
            d.code.is_none(),
            d.code_description.is_none(),
            d.message@ == message@,
    {
        Diagnostic {
            severity: Severity::Error,
            span,
            code: None,
            code_description: None,
            message: message.to_owned(),
        }
    }

    /// Builds a `Warning` diagnostic with no code.
    pub fn warning(span: Span, message: &str) -> (d: Diagnostic)
        ensures
            d.severity == Severity::Warning,
            d.span == span,
            d.code.is_none(),
            d.code_description.is_none(),
            d.message@ == message@,
    {
        Diagnostic {
            severity: Severity::Warning,
            span,
            code: None,
            code_description: None,
            message: message.to_owned(),
        }
    }

    /// Returns this diagnostic with `code` attached.
    pub fn with_code(self, code: &str) -> (d: Diagnostic)
        ensures
            d.severity == self.severity,
            d.span == self.span,
            d.code matches Some(c) && c@ == code@,
            d.code_description == self.code_description,
            d.message == self.message,
    {
        let mut d = self;
        d.code = Some(code.to_owned());
        d
    }

    /// Returns this diagnostic with the code's article URL attached.
    pub fn with_code_description(self, url: &str) -> (d: Diagnostic)
        ensures
            d.severity == self.severity,
            d.span == self.span,
            d.code == self.code,
            d.code_description matches Some(c) && c@ == url@,
            d.message == self.message,
    {
        let mut d = self;
        d.code_description = Some(url.to_owned());
        d
    }

    /// Whether this diagnostic is an `Error`.
    pub fn is_error(&self) -> (b: bool)
        ensures
            b == (self.severity == Severity::Error),
    {
        self.severity == Severity::Error
    }
}

} // verus!
