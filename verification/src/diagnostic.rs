//! Messages that the front end reports about the source text.

use std::ops::Range;
use vstd::prelude::*;

verus! {

/// A place in a source file.
#[derive(Clone, Copy, Debug, PartialEq, Eq, Structural)]
pub struct Position {
    /// The line, counted as the lexer counts it.
    pub line: usize,
    /// The offset within the line.
    pub character: usize,
}

/// How grave a diagnostic is.
#[derive(Clone, Copy, Debug, PartialEq, Eq, Structural)]
pub enum DiagnosticSeverity {
    /// The artifacts derived from the source are not to be trusted.
    Error,
    /// Compilation goes on; the source should be looked at.
    Warning,
    /// A remark.
    Info,
}

/// A message about a place in a source file.
#[derive(Debug, PartialEq, Eq)]
pub struct Diagnostic {
    pub file_name: Option<String>,
    pub range: Option<Range<Position>>,
    pub message: String,
    pub context: Option<String>,
    pub severity: DiagnosticSeverity,
    pub start_line: usize,
}

/// The mathematical value of a [`Diagnostic`].
pub struct DiagnosticView {
    pub file_name: Option<Seq<char>>,
    pub range: Option<(Position, Position)>,
    pub message: Seq<char>,
    pub context: Option<Seq<char>>,
    pub severity: DiagnosticSeverity,
    pub start_line: usize,
}

/// The characters of an optional string.
pub open spec fn option_string_view(s: Option<String>) -> Option<Seq<char>> {
    match s {
        Some(s) => Some(s@),
        None => None,
    }
}

impl View for Diagnostic {
    type V = DiagnosticView;

    open spec fn view(&self) -> DiagnosticView {
        DiagnosticView {
            file_name: option_string_view(self.file_name),
            range: match self.range {
                Some(r) => Some((r.start, r.end)),
                None => None,
            },
            message: self.message@,
            context: option_string_view(self.context),
            severity: self.severity,
            start_line: self.start_line,
        }
    }
}

impl DeepView for Diagnostic {
    type V = DiagnosticView;

    open spec fn deep_view(&self) -> DiagnosticView {
        self@
    }
}

/// A copy of an optional string.
pub fn clone_option_string(s: &Option<String>) -> (copy: Option<String>)
    ensures
        option_string_view(copy) == option_string_view(*s),
{
    match s {
        Some(s) => Some(s.clone()),
        None => None,
    }
}

impl Clone for Diagnostic {
    fn clone(&self) -> (copy: Diagnostic)
        ensures
            copy@ == self@,
    {
        Diagnostic {
            file_name: clone_option_string(&self.file_name),
            range: match &self.range {
                Some(r) => Some(r.start..r.end),
                None => None,
            },
            message: self.message.clone(),
            context: clone_option_string(&self.context),
            severity: self.severity,
            start_line: self.start_line,
        }
    }
}

impl Diagnostic {
    /// A diagnostic that carries only a message: an error at no known place.
    pub fn from_message(message: String) -> (diagnostic: Diagnostic)
        ensures
            diagnostic@ == (DiagnosticView {
                file_name: None,
                range: None,
                message: message@,
                context: None,
                severity: DiagnosticSeverity::Error,
                start_line: 0,
            }),
    {
        Diagnostic {
            file_name: None,
            range: None,
            message,
            context: None,
            severity: DiagnosticSeverity::Error,
            start_line: 0,
        }
    }

    /// The same diagnostic for the given stretch of source.
    pub fn with_range(self, range: Range<Position>) -> (diagnostic: Diagnostic)
        ensures
            diagnostic@ == (DiagnosticView { range: Some((range.start, range.end)), ..self@ }),
    {
        Diagnostic { range: Some(range), ..self }
    }

    /// The same diagnostic with the given excerpt of the source.
    pub fn with_context(self, context: String) -> (diagnostic: Diagnostic)
        ensures
            diagnostic@ == (DiagnosticView { context: Some(context@), ..self@ }),
    {
        Diagnostic { context: Some(context), ..self }
    }

    /// The same diagnostic for the given line.
    pub fn with_start_line(self, start_line: usize) -> (diagnostic: Diagnostic)
        ensures
            diagnostic@ == (DiagnosticView { start_line, ..self@ }),
    {
        Diagnostic { start_line, ..self }
    }

    /// The same diagnostic for the given file.
    pub fn with_file_name(self, file_name: String) -> (diagnostic: Diagnostic)
        ensures
            diagnostic@ == (DiagnosticView { file_name: Some(file_name@), ..self@ }),
    {
        Diagnostic { file_name: Some(file_name), ..self }
    }

    /// The same diagnostic with the given severity.
    pub fn with_severity(self, severity: DiagnosticSeverity) -> (diagnostic: Diagnostic)
        ensures
            diagnostic@ == (DiagnosticView { severity, ..self@ }),
    {
        Diagnostic { severity, ..self }
    }
}

} // verus!
