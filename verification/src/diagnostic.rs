//! Compiler diagnostics: a severity, a stable code, a message and a source
//! position.
use vstd::prelude::*;

verus! {

#[derive(Debug, Clone, Copy, PartialEq, Eq, Structural)]
pub enum Severity {
    Error,
    Warning,
}

/// The lower-case name of a severity, as it appears in the JSON IR.
pub open spec fn severity_text(severity: Severity) -> Seq<char> {
    match severity {
        Severity::Error => "error"@,
        Severity::Warning => "warning"@,
    }
}

impl Severity {
    pub fn as_str(&self) -> (text: &'static str)
        ensures
            text@ == severity_text(*self),
    {
        match self {
            Severity::Error => "error",
            Severity::Warning => "warning",
        }
    }
}

#[derive(Debug, Clone)]
pub struct Diagnostic {
    pub severity: Severity,
    pub code: &'static str,
    pub message: String,
    pub line: usize,
    pub column: usize,
}

/// The mathematical content of a diagnostic.
pub struct DiagnosticView {
    pub severity: Severity,
    pub code: Seq<char>,
    pub message: Seq<char>,
    pub line: int,
    pub column: int,
}

impl View for Diagnostic {
    type V = DiagnosticView;

    open spec fn view(&self) -> DiagnosticView {
        DiagnosticView {
            severity: self.severity,
            code: self.code@,
            message: self.message@,
            line: self.line as int,
            column: self.column as int,
        }
    }
}

pub open spec fn diag_view(
    severity: Severity,
    code: Seq<char>,
    message: Seq<char>,
    line: int,
    column: int,
) -> DiagnosticView {
    DiagnosticView { severity, code, message, line, column }
}

/// The views of a sequence of diagnostics.
pub open spec fn diagnostics_view(diagnostics: Seq<Diagnostic>) -> Seq<DiagnosticView> {
    diagnostics.map_values(|d: Diagnostic| d@)
}

impl Diagnostic {
    pub fn error(code: &'static str, message: String, line: usize, column: usize) -> (d: Self)
        ensures
            d@ == diag_view(Severity::Error, code@, message@, line as int, column as int),
    {
        Diagnostic { severity: Severity::Error, code, message, line, column }
    }

    pub fn warning(code: &'static str, message: String, line: usize, column: usize) -> (d: Self)
        ensures
            d@ == diag_view(Severity::Warning, code@, message@, line as int, column as int),
    {
        Diagnostic { severity: Severity::Warning, code, message, line, column }
    }
}

} // verus!
