use erys_front::diagnostics::{lex_error_diagnostic, DiagnosticBuilder, Severity};
use erys_front::lexer::LexError;
use erys_front::scan::LexErrorKind;
use erys_front::session::Session;
use erys_front::span::Span;

fn session(src: &str) -> Session {
    let mut s = Session::new("main.erys".to_string());
    s.load(src.to_string());
    s
}

#[test]
fn builder_keeps_every_part() {
    let s = session("let x = 5;");
    let d = DiagnosticBuilder::warning(&s, "unused variable".to_string())
        .with_label("declared here".to_string(), Span::new(4, 1))
        .with_code("W001".to_string())
        .with_label("never read".to_string(), Span::new(0, 10))
        .with_help("remove it".to_string())
        .emit();
    assert_eq!(d.severity(), Severity::Warning);
    assert_eq!(d.message(), "unused variable");
    assert_eq!(d.code().as_deref(), Some("W001"));
    assert_eq!(d.help().as_deref(), Some("remove it"));
    let labels: Vec<(&str, Span)> = d.labels().iter().map(|l| (l.label.as_str(), l.span)).collect();
    assert_eq!(labels, vec![("declared here", Span::new(4, 1)), ("never read", Span::new(0, 10))]);
    assert_eq!(d.session().source, "let x = 5;");
}

#[test]
fn builder_starts_empty() {
    let s = session("x");
    let b = DiagnosticBuilder::error(&s, "boom".to_string());
    assert_eq!(b.label_count(), 0);
    let b = b.with_label("here".to_string(), Span::new(0, 1));
    assert_eq!(b.label_count(), 1);
    let d = b.emit();
    assert_eq!(d.severity(), Severity::Error);
    assert!(d.code().is_none());
    assert!(d.help().is_none());
    let a = DiagnosticBuilder::advice(&s, "note".to_string())
        .with_label("it".to_string(), Span::new(0, 1))
        .emit();
    assert_eq!(a.severity(), Severity::Advice);
}

#[test]
fn lexical_error_becomes_labeled_error() {
    let s = session("\"abc");
    let e = LexError { kind: LexErrorKind::UnterminatedString, span: Span::new(0, 4) };
    let d = lex_error_diagnostic(&s, &e);
    assert_eq!(d.severity(), Severity::Error);
    assert_eq!(d.message(), "unterminated string literal");
    assert_eq!(d.labels().len(), 1);
    assert_eq!(d.labels()[0].span, Span::new(0, 4));
    assert_eq!(d.labels()[0].label, "this string is never closed");
}

#[test]
fn line_table_counts_bytes() {
    let s = session("ab\r\ncd\n\u{e9}x");
    assert_eq!(s.line_beginnings, vec![3, 3, 4]);
    let t = session("one\n\ntwo\n");
    assert_eq!(t.line_beginnings, vec![4, 1, 4]);
    let e = session("");
    assert!(e.line_beginnings.is_empty());
    assert_eq!(e.path, "main.erys");
}

#[test]
fn line_table_matches_std_lines() {
    let src = "a\r\nbb\n\nccc\r\n\u{20ac}";
    let s = session(src);
    let expected: Vec<usize> = src.lines().map(|l| l.len() + 1).collect();
    assert_eq!(s.line_beginnings, expected);
}

#[test]
fn bare_final_carriage_return_is_kept() {
    assert_eq!(session("a\r").line_beginnings, vec![3]);
    let src = "a\r\nb\r";
    let expected: Vec<usize> = src.lines().map(|l| l.len() + 1).collect();
    assert_eq!(session(src).line_beginnings, expected);
    assert_eq!(expected, vec![2, 3]);
}

#[test]
fn new_session_is_empty() {
    let s = Session::new("p".to_string());
    assert!(s.source.is_empty());
    assert!(s.line_beginnings.is_empty());
}

#[test]
fn span_constructors() {
    let a = Span::new(3, 4);
    assert_eq!((a.low, a.offset), (3, 4));
    assert_eq!(a.len(), 4);
    assert!(!a.is_empty());
    assert_eq!(a.end_byte(), 7);
    let b = Span::from_span_offset(a, 0);
    assert_eq!(b, Span::new(3, 0));
    assert!(b.is_empty());
    assert_eq!(Span::from_pair((1, 2)), Span::new(1, 2));
    assert_eq!(Span::from_range(5, 9), Span::new(5, 4));
    assert!(Span::new(1, 5) < Span::new(2, 0));
}
