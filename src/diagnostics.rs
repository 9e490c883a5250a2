//! Diagnostics: severity-tagged reports anchored to labeled source spans,
//! built through a fluent builder that refuses to finish without a label.
use vstd::prelude::*;
use crate::scan::LexErrorKind;
use crate::lexer::LexError;
use crate::session::Session;
use crate::span::Span;

verus! {

/// How serious a diagnostic is.
#[derive(Debug, Copy, Clone, PartialEq, Eq, Structural, Hash)]
pub enum Severity {
    Error,
    Warning,
    Advice,
}

/// A span with the text that says why it matters.
#[derive(Debug, Clone)]
pub struct LabeledSpan {
    pub label: String,
    pub span: Span,
}

impl LabeledSpan {
    pub fn new(label: String, span: Span) -> (r: LabeledSpan)
        ensures
            r.label == label,
            r.span == span,
    {
        LabeledSpan { label, span }
    }
}

/// A finished report, rendered against the source of its session.
pub struct Diagnostic<'a> {
    code: Option<String>,
    severity: Severity,
    help: Option<String>,
    labels: Vec<LabeledSpan>,
    message: String,
    session: &'a Session,
}

impl<'a> Diagnostic<'a> {
    /// A finished diagnostic carries at least one label.
    pub closed spec fn wf(&self) -> bool {
        self.labels@.len() > 0
    }

    pub closed spec fn code_spec(&self) -> Option<String> {
        self.code
    }

    pub closed spec fn severity_spec(&self) -> Severity {
        self.severity
    }

    pub closed spec fn help_spec(&self) -> Option<String> {
        self.help
    }

    pub closed spec fn labels_spec(&self) -> Seq<LabeledSpan> {
        self.labels@
    }

    pub closed spec fn message_spec(&self) -> String {
        self.message
    }

    pub closed spec fn session_spec(&self) -> &'a Session {
        self.session
    }

    pub fn code(&self) -> (r: &Option<String>)
        ensures
            *r == self.code_spec(),
    {
        &self.code
    }

    pub fn severity(&self) -> (r: Severity)
        ensures
            r == self.severity_spec(),
    {
        self.severity
    }

    pub fn help(&self) -> (r: &Option<String>)
        ensures
            *r == self.help_spec(),
    {
        &self.help
    }

    pub fn labels(&self) -> (r: &Vec<LabeledSpan>)
        ensures
            r@ == self.labels_spec(),
    {
        &self.labels
    }

    pub fn message(&self) -> (r: &String)
        ensures
            *r == self.message_spec(),
    {
        &self.message
    }

    /// The session whose source the diagnostic points into.
    pub fn session(&self) -> (r: &'a Session)
        ensures
            r == self.session_spec(),
    {
        self.session
    }
}

/// Accumulates the parts of a diagnostic in any order.
pub struct DiagnosticBuilder<'a> {
    diag: Diagnostic<'a>,
}

impl<'a> DiagnosticBuilder<'a> {
    /// The diagnostic built so far.
    pub closed spec fn view_diag(&self) -> &Diagnostic<'a> {
        &self.diag
    }

    fn new(session: &'a Session, severity: Severity, message: String) -> (r: Self)
        ensures
            r.view_diag().severity_spec() == severity,
            r.view_diag().message_spec() == message,
            r.view_diag().session_spec() == session,
            r.view_diag().code_spec() is None,
            r.view_diag().help_spec() is None,
            r.view_diag().labels_spec() == Seq::<LabeledSpan>::empty(),
    {
        DiagnosticBuilder {
            diag: Diagnostic {
                code: None,
                severity,
                help: None,
                labels: Vec::new(),
                message,
                session,
            },
        }
    }

    /// Starts an error report.
    pub fn error(session: &'a Session, message: String) -> (r: Self)
        ensures
            r.view_diag().severity_spec() == Severity::Error,
            r.view_diag().message_spec() == message,
            r.view_diag().session_spec() == session,
            r.view_diag().code_spec() is None,
            r.view_diag().help_spec() is None,
            r.view_diag().labels_spec() == Seq::<LabeledSpan>::empty(),
    {
        Self::new(session, Severity::Error, message)
    }

    /// Starts a warning.
    pub fn warning(session: &'a Session, message: String) -> (r: Self)
        ensures
            r.view_diag().severity_spec() == Severity::Warning,
            r.view_diag().message_spec() == message,
            r.view_diag().session_spec() == session,
            r.view_diag().code_spec() is None,
            r.view_diag().help_spec() is None,
            r.view_diag().labels_spec() == Seq::<LabeledSpan>::empty(),
    {
        Self::new(session, Severity::Warning, message)
    }

    /// Starts an advice note.
    pub fn advice(session: &'a Session, message: String) -> (r: Self)
        ensures
            r.view_diag().severity_spec() == Severity::Advice,
            r.view_diag().message_spec() == message,
            r.view_diag().session_spec() == session,
            r.view_diag().code_spec() is None,
            r.view_diag().help_spec() is None,
            r.view_diag().labels_spec() == Seq::<LabeledSpan>::empty(),
    {
        Self::new(session, Severity::Advice, message)
    }

    /// Attaches a machine-readable code.
    pub fn with_code(self, code: String) -> (r: Self)
        ensures
            r.view_diag().code_spec() == Some(code),
            r.view_diag().severity_spec() == self.view_diag().severity_spec(),
            r.view_diag().message_spec() == self.view_diag().message_spec(),
            r.view_diag().session_spec() == self.view_diag().session_spec(),
            r.view_diag().help_spec() == self.view_diag().help_spec(),
            r.view_diag().labels_spec() == self.view_diag().labels_spec(),
    {
        let mut b = self;
        b.diag.code = Some(code);
        b
    }

    /// Attaches a remediation hint.
    pub fn with_help(self, help: String) -> (r: Self)
        ensures
            r.view_diag().help_spec() == Some(help),
            r.view_diag().severity_spec() == self.view_diag().severity_spec(),
            r.view_diag().message_spec() == self.view_diag().message_spec(),
            r.view_diag().session_spec() == self.view_diag().session_spec(),
            r.view_diag().code_spec() == self.view_diag().code_spec(),
            r.view_diag().labels_spec() == self.view_diag().labels_spec(),
    {
        let mut b = self;
        b.diag.help = Some(help);
        b
    }

    /// Appends a labeled span; labels keep the order they were attached in.
    pub fn with_label(self, label: String, span: Span) -> (r: Self)
        ensures
            r.view_diag().labels_spec() == self.view_diag().labels_spec().push(
                LabeledSpan { label, span },
            ),
            r.view_diag().severity_spec() == self.view_diag().severity_spec(),
            r.view_diag().message_spec() == self.view_diag().message_spec(),
            r.view_diag().session_spec() == self.view_diag().session_spec(),
            r.view_diag().code_spec() == self.view_diag().code_spec(),
            r.view_diag().help_spec() == self.view_diag().help_spec(),
    {
        let mut b = self;
        b.diag.labels.push(LabeledSpan::new(label, span));
        b
    }

    /// The number of labels attached so far.
    pub fn label_count(&self) -> (r: usize)
        ensures
            r == self.view_diag().labels_spec().len(),
    {
        self.diag.labels.len()
    }

    /// Finishes the diagnostic for rendering. A diagnostic without a label
    /// is a defect of its caller, so at least one label is required.
    pub fn emit(self) -> (r: Diagnostic<'a>)
        requires
            self.view_diag().labels_spec().len() > 0,
        ensures
            r.wf(),
            r.severity_spec() == self.view_diag().severity_spec(),
            r.message_spec() == self.view_diag().message_spec(),
            r.session_spec() == self.view_diag().session_spec(),
            r.code_spec() == self.view_diag().code_spec(),
            r.help_spec() == self.view_diag().help_spec(),
            r.labels_spec() == self.view_diag().labels_spec(),
    {
        self.diag
    }
}

/// The message reported for each lexical error.
pub open spec fn lex_error_message(k: LexErrorKind) -> Seq<char> {
    match k {
        LexErrorKind::UnterminatedBlockComment => "unterminated block comment"@,
        LexErrorKind::UnterminatedString => "unterminated string literal"@,
        LexErrorKind::UnterminatedChar => "unterminated character literal"@,
        LexErrorKind::InvalidDigit => "invalid digit in numeric literal"@,
        LexErrorKind::UnrecognizedCharacter => "unrecognized character"@,
    }
}

/// The label placed under the region of each lexical error.
pub open spec fn lex_error_label(k: LexErrorKind) -> Seq<char> {
    match k {
        LexErrorKind::UnterminatedBlockComment => "this comment is never closed"@,
        LexErrorKind::UnterminatedString => "this string is never closed"@,
        LexErrorKind::UnterminatedChar => "this character literal is never closed"@,
        LexErrorKind::InvalidDigit => "this literal is malformed"@,
        LexErrorKind::UnrecognizedCharacter => "this character is not part of the language"@,
    }
}

/// The error diagnostic that reports a lexical error, labeling its region.
pub fn lex_error_diagnostic<'a>(session: &'a Session, err: &LexError) -> (r: Diagnostic<'a>)
    ensures
        r.wf(),
        r.severity_spec() == Severity::Error,
        r.message_spec()@ == lex_error_message(err.kind),
        r.labels_spec().len() == 1,
        r.labels_spec()[0].span == err.span,
        r.labels_spec()[0].label@ == lex_error_label(err.kind),
        r.code_spec() is None,
        r.help_spec() is None,
        r.session_spec() == session,
{
    let (message, label) = match err.kind {
        LexErrorKind::UnterminatedBlockComment => (
            "unterminated block comment".to_owned(),
            "this comment is never closed".to_owned(),
        ),
        LexErrorKind::UnterminatedString => (
            "unterminated string literal".to_owned(),
            "this string is never closed".to_owned(),
        ),
        LexErrorKind::UnterminatedChar => (
            "unterminated character literal".to_owned(),
            "this character literal is never closed".to_owned(),
        ),
        LexErrorKind::InvalidDigit => (
            "invalid digit in numeric literal".to_owned(),
            "this literal is malformed".to_owned(),
        ),
        LexErrorKind::UnrecognizedCharacter => (
            "unrecognized character".to_owned(),
            "this character is not part of the language".to_owned(),
        ),
    };
    DiagnosticBuilder::error(session, message).with_label(label, err.span).emit()
}

} // verus!
