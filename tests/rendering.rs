use std::fmt;

use erys_front::diagnostics::{Diagnostic, DiagnosticBuilder, Severity};
use erys_front::session::Session;
use erys_front::span::Span;
use miette::{GraphicalReportHandler, GraphicalTheme, NamedSource};

struct Shown<'r, 'a> {
    diag: &'r Diagnostic<'a>,
    source: NamedSource,
}

impl fmt::Debug for Shown<'_, '_> {
    fn fmt(&self, f: &mut fmt::Formatter<'_>) -> fmt::Result {
        f.write_str(self.diag.message())
    }
}

impl fmt::Display for Shown<'_, '_> {
    fn fmt(&self, f: &mut fmt::Formatter<'_>) -> fmt::Result {
        f.write_str(self.diag.message())
    }
}

impl std::error::Error for Shown<'_, '_> {}

impl miette::Diagnostic for Shown<'_, '_> {
    fn severity(&self) -> Option<miette::Severity> {
        Some(match self.diag.severity() {
            Severity::Error => miette::Severity::Error,
            Severity::Warning => miette::Severity::Warning,
            Severity::Advice => miette::Severity::Advice,
        })
    }

    fn source_code(&self) -> Option<&dyn miette::SourceCode> {
        Some(&self.source)
    }

    fn labels(&self) -> Option<Box<dyn Iterator<Item = miette::LabeledSpan> + '_>> {
        Some(Box::new(self.diag.labels().iter().map(|l| {
            miette::LabeledSpan::new(Some(l.label.clone()), l.span.low, l.span.len())
        })))
    }
}

#[test]
fn rendered_report_shows_message_and_labels() {
    let mut session = Session::new("main.erys".to_string());
    session.load("let x = 5;\nlet y = x;\n".to_string());
    let diag = DiagnosticBuilder::error(&session, "shadowed binding".to_string())
        .with_label("first here".to_string(), Span::new(4, 1))
        .with_label("used here".to_string(), Span::new(19, 1))
        .emit();
    let shown = Shown { diag: &diag, source: NamedSource::new("main.erys", session.source.clone()) };
    let handler = GraphicalReportHandler::new_themed(GraphicalTheme::unicode_nocolor());
    let mut out = String::new();
    handler.render_report(&mut out, &shown).unwrap();
    assert!(out.contains("shadowed binding"));
    assert!(out.contains("first here"));
    assert!(out.contains("used here"));
}
