//! Findings about a source file: severity, code, message, place and suggested fix.
//!
//! The parser, the analysis and the lint rules report `dolfin_diagnostic::Diagnostic`s.
//! The language features work on [`Finding`], which holds the same values.

use crate::text::{decimal, decimal_text};
use crate::types::{Location, SourceSpan};
use vstd::prelude::*;

verus! {

// ── Plain findings ────────────────────────────────────────────────────────────

/// How serious a finding is.
#[derive(Clone, Copy, PartialEq, Eq, Debug, Structural)]
pub enum Severity {
    Hint,
    Info,
    Warning,
    Error,
}

/// What a finding is about.
#[derive(PartialEq, Eq, Debug)]
pub enum FindingCode {
    /// Lexer or parser error, by number.
    Parse(u16),
    /// Semantic analysis, by number.
    Semantic(u16),
    /// Lint rule, by rule name.
    Lint(String),
}

/// One replacement of a fix. An empty `file` stands for the file of the finding.
#[derive(PartialEq, Eq, Debug)]
pub struct FixEdit {
    pub file: String,
    pub span: SourceSpan,
    pub replacement: String,
}

/// A suggested fix.
#[derive(PartialEq, Eq, Debug)]
pub struct Fix {
    pub description: String,
    pub edits: Vec<FixEdit>,
}

/// A finding. Without a span it concerns the whole file.
#[derive(PartialEq, Eq, Debug)]
pub struct Finding {
    pub severity: Severity,
    pub code: FindingCode,
    pub message: String,
    pub span: Option<SourceSpan>,
    pub fix: Option<Fix>,
}

// ── Models ────────────────────────────────────────────────────────────────────

/// Contents of a [`FindingCode`].
pub enum CodeView {
    Parse(u16),
    Semantic(u16),
    Lint(Seq<char>),
}

/// Contents of a [`FixEdit`].
pub struct FixEditView {
    pub file: Seq<char>,
    pub span: SourceSpan,
    pub replacement: Seq<char>,
}

/// Contents of a [`Fix`].
pub struct FixView {
    pub description: Seq<char>,
    pub edits: Seq<FixEditView>,
}

/// Contents of a [`Finding`].
pub struct FindingView {
    pub severity: Severity,
    pub code: CodeView,
    pub message: Seq<char>,
    pub span: Option<SourceSpan>,
    pub fix: Option<FixView>,
}

impl View for FindingCode {
    type V = CodeView;

    open spec fn view(&self) -> CodeView {
        match *self {
            FindingCode::Parse(n) => CodeView::Parse(n),
            FindingCode::Semantic(n) => CodeView::Semantic(n),
            FindingCode::Lint(id) => CodeView::Lint(id@),
        }
    }
}

impl View for FixEdit {
    type V = FixEditView;

    open spec fn view(&self) -> FixEditView {
        FixEditView { file: self.file@, span: self.span, replacement: self.replacement@ }
    }
}

impl View for Fix {
    type V = FixView;

    open spec fn view(&self) -> FixView {
        FixView {
            description: self.description@,
            edits: Seq::new(self.edits@.len(), |i: int| self.edits@[i]@),
        }
    }
}

impl View for Finding {
    type V = FindingView;

    open spec fn view(&self) -> FindingView {
        FindingView {
            severity: self.severity,
            code: self.code@,
            message: self.message@,
            span: self.span,
            fix: match self.fix {
                Some(f) => Some(f@),
                None => None,
            },
        }
    }
}

/// Contents of a list of findings.
pub open spec fn findings(v: Seq<Finding>) -> Seq<FindingView> {
    Seq::new(v.len(), |i: int| v[i]@)
}

// ── Codes as text ─────────────────────────────────────────────────────────────

/// `n` in base ten, filled up with zeros to three digits.
pub open spec fn three_digits(n: nat) -> Seq<char> {
    if n < 10 {
        "00"@ + decimal_text(n)
    } else if n < 100 {
        "0"@ + decimal_text(n)
    } else {
        decimal_text(n)
    }
}

/// The code as it is shown: `P200`, `S001`, `L/naming/pascal-case`.
pub open spec fn code_text(code: CodeView) -> Seq<char> {
    match code {
        CodeView::Parse(n) => "P"@ + decimal_text(n as nat),
        CodeView::Semantic(n) => "S"@ + three_digits(n as nat),
        CodeView::Lint(id) => "L/"@ + id,
    }
}

impl FindingCode {
    /// The code as it is shown.
    pub fn code_str(&self) -> (r: String)
        ensures
            r@ == code_text(self@),
    {
        match self {
            FindingCode::Parse(n) => {
                let mut s = "P".to_owned();
                s.append(decimal(*n as usize).as_str());
                s
            },
            FindingCode::Semantic(n) => {
                let mut s = "S".to_owned();
                if *n < 10 {
                    s.append("00");
                } else if *n < 100 {
                    s.append("0");
                }
                s.append(decimal(*n as usize).as_str());
                assert(s@ =~= "S"@ + three_digits(*n as nat));
                s
            },
            FindingCode::Lint(id) => {
                let mut s = "L/".to_owned();
                s.append(id.as_str());
                s
            },
        }
    }
}

// ── Reading `dolfin_diagnostic` values ────────────────────────────────────────

/// `dolfin_diagnostic::Span`, opaque.
#[verifier::external_type_specification]
#[verifier::external_body]
pub struct ExReportedSpan(dolfin_diagnostic::Span);

/// `dolfin_diagnostic::TextEdit`, opaque.
#[verifier::external_type_specification]
#[verifier::external_body]
pub struct ExReportedEdit(dolfin_diagnostic::TextEdit);

/// `dolfin_diagnostic::FixSuggestion`, opaque.
#[verifier::external_type_specification]
#[verifier::external_body]
pub struct ExReportedFix(dolfin_diagnostic::FixSuggestion);

/// `dolfin_diagnostic::Diagnostic`, opaque.
#[verifier::external_type_specification]
#[verifier::external_body]
pub struct ExReported(dolfin_diagnostic::Diagnostic);

/// The fields of a `dolfin_diagnostic::Span`.
pub uninterp spec fn reported_span(span: dolfin_diagnostic::Span) -> SourceSpan;

/// The fields of a `dolfin_diagnostic::TextEdit`.
pub uninterp spec fn reported_edit(edit: dolfin_diagnostic::TextEdit) -> FixEditView;

/// The fields of a `dolfin_diagnostic::FixSuggestion`.
pub uninterp spec fn reported_fix(fix: dolfin_diagnostic::FixSuggestion) -> FixView;

/// The severity, code, message, span and fix of a `dolfin_diagnostic::Diagnostic`.
pub uninterp spec fn reported(d: dolfin_diagnostic::Diagnostic) -> FindingView;

/// Borrowed fields of an edit.
pub struct ReportedEditParts<'a> {
    pub file: &'a String,
    pub span: &'a dolfin_diagnostic::Span,
    pub replacement: &'a String,
}

/// Borrowed fields of a fix.
pub struct ReportedFixParts<'a> {
    pub description: &'a String,
    pub edits: &'a Vec<dolfin_diagnostic::TextEdit>,
}

/// Borrowed fields of a finding.
pub struct ReportedParts<'a> {
    pub severity: Severity,
    pub code: FindingCode,
    pub message: &'a String,
    pub span: &'a Option<dolfin_diagnostic::Span>,
    pub fix: &'a Option<dolfin_diagnostic::FixSuggestion>,
}

impl<'a> ReportedEditParts<'a> {
    /// The contents that the fields make up.
    pub open spec fn contents(self) -> FixEditView {
        FixEditView {
            file: self.file@,
            span: reported_span(*self.span),
            replacement: self.replacement@,
        }
    }
}

impl<'a> ReportedFixParts<'a> {
    /// The contents that the fields make up.
    pub open spec fn contents(self) -> FixView {
        FixView {
            description: self.description@,
            edits: Seq::new(self.edits@.len(), |i: int| reported_edit(self.edits@[i])),
        }
    }
}

impl<'a> ReportedParts<'a> {
    /// The contents that the fields make up.
    pub open spec fn contents(self) -> FindingView {
        FindingView {
            severity: self.severity,
            code: self.code@,
            message: self.message@,
            span: match *self.span {
                Some(s) => Some(reported_span(s)),
                None => None,
            },
            fix: match *self.fix {
                Some(f) => Some(reported_fix(f)),
                None => None,
            },
        }
    }
}

/// Contents of a list of reported findings.
pub open spec fn all_reported(v: Seq<dolfin_diagnostic::Diagnostic>) -> Seq<FindingView> {
    Seq::new(v.len(), |i: int| reported(v[i]))
}

/// Reads the public fields of a `dolfin_diagnostic::Span`.
#[verifier::external_body]
pub(crate) fn reported_span_parts(s: &dolfin_diagnostic::Span) -> (r: SourceSpan)
    ensures
        r == reported_span(*s),
{
    SourceSpan {
        start: Location { line: s.start.line, column: s.start.column, offset: s.start.offset },
        end: Location { line: s.end.line, column: s.end.column, offset: s.end.offset },
    }
}

/// Reads the public fields of a `dolfin_diagnostic::TextEdit`.
#[verifier::external_body]
pub(crate) fn reported_edit_parts(e: &dolfin_diagnostic::TextEdit) -> (r: ReportedEditParts<'_>)
    ensures
        r.contents() == reported_edit(*e),
{
    ReportedEditParts { file: &e.file, span: &e.span, replacement: &e.replacement }
}

/// Reads the public fields of a `dolfin_diagnostic::FixSuggestion`.
#[verifier::external_body]
pub(crate) fn reported_fix_parts(f: &dolfin_diagnostic::FixSuggestion) -> (r: ReportedFixParts<'_>)
    ensures
        r.contents() == reported_fix(*f),
{
    ReportedFixParts { description: &f.description, edits: &f.edits }
}

/// Reads the public fields of a `dolfin_diagnostic::Diagnostic`, except its labels and
/// its help text.
#[verifier::external_body]
pub(crate) fn reported_parts(d: &dolfin_diagnostic::Diagnostic) -> (r: ReportedParts<'_>)
    ensures
        r.contents() == reported(*d),
{
    ReportedParts {
        severity: match d.severity {
            dolfin_diagnostic::Severity::Hint => Severity::Hint,
            dolfin_diagnostic::Severity::Info => Severity::Info,
            dolfin_diagnostic::Severity::Warning => Severity::Warning,
            dolfin_diagnostic::Severity::Error => Severity::Error,
        },
        code: match &d.code {
            dolfin_diagnostic::DiagnosticCode::Parse(n) => FindingCode::Parse(*n),
            dolfin_diagnostic::DiagnosticCode::Semantic(n) => FindingCode::Semantic(*n),
            dolfin_diagnostic::DiagnosticCode::Lint(id) => FindingCode::Lint(id.clone()),
        },
        message: &d.message, span: &d.span, fix: &d.fix,
    }
}

// ── Conversion ────────────────────────────────────────────────────────────────

/// The plain value of a reported edit.
fn edit_from(e: &dolfin_diagnostic::TextEdit) -> (r: FixEdit)
    ensures
        r@ == reported_edit(*e),
{
    let p = reported_edit_parts(e);
    FixEdit {
        file: p.file.clone(),
        span: reported_span_parts(p.span),
        replacement: p.replacement.clone(),
    }
}

/// The plain value of a reported fix.
fn fix_from(f: &dolfin_diagnostic::FixSuggestion) -> (r: Fix)
    ensures
        r@ == reported_fix(*f),
{
    let p = reported_fix_parts(f);
    let mut edits: Vec<FixEdit> = Vec::new();
    let mut i: usize = 0;
    while i < p.edits.len()
        invariant
            i <= p.edits.len(),
            edits.len() == i,
            forall|j: int| 0 <= j < i ==> (#[trigger] edits@[j])@ == reported_edit(p.edits@[j]),
        decreases p.edits.len() - i,
    {
        edits.push(edit_from(&p.edits[i]));
        i = i + 1;
    }
    let r = Fix { description: p.description.clone(), edits };
    assert(r@.edits =~= p.contents().edits);
    r
}

/// The plain value of a reported finding.
pub fn finding_from(d: &dolfin_diagnostic::Diagnostic) -> (r: Finding)
    ensures
        r@ == reported(*d),
{
    let p = reported_parts(d);
    let span: Option<SourceSpan> = match p.span {
        Some(s) => Some(reported_span_parts(s)),
        None => None,
    };
    let fix: Option<Fix> = match p.fix {
        Some(f) => Some(fix_from(f)),
        None => None,
    };
    Finding { severity: p.severity, code: p.code, message: p.message.clone(), span, fix }
}

/// The plain values of a list of reported findings, in order.
pub fn findings_from(v: &Vec<dolfin_diagnostic::Diagnostic>) -> (r: Vec<Finding>)
    ensures
        findings(r@) == all_reported(v@),
{
    let mut out: Vec<Finding> = Vec::new();
    let mut i: usize = 0;
    while i < v.len()
        invariant
            i <= v.len(),
            out.len() == i,
            forall|j: int| 0 <= j < i ==> (#[trigger] out@[j])@ == reported(v@[j]),
        decreases v.len() - i,
    {
        out.push(finding_from(&v[i]));
        i = i + 1;
    }
    assert(findings(out@) =~= all_reported(v@));
    out
}

} // verus!
