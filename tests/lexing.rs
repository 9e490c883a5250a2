use erys_front::lexer::{LexError, Lexer};
use erys_front::scan::LexErrorKind;
use erys_front::span::Span;
use erys_front::tokens::{Base, CommentKind, KeywordKind, LiteralKind, Token, TokenKind};

fn all_tokens(src: &str) -> (Vec<Token>, Vec<LexError>) {
    let mut lx = Lexer::new(src);
    let mut out = Vec::new();
    while let Some(t) = lx.next_token() {
        out.push(t);
    }
    (out, lx.errors().clone())
}

fn value(t: &Token) -> Option<&str> {
    t.value.as_deref()
}

#[test]
fn let_statement_scenario() {
    let (toks, errs) = all_tokens("let x = 5;");
    assert!(errs.is_empty());
    let kinds: Vec<TokenKind> = toks.iter().map(|t| t.kind).collect();
    assert_eq!(
        kinds,
        vec![
            TokenKind::Keyword(KeywordKind::Let),
            TokenKind::Ident,
            TokenKind::Eq,
            TokenKind::Literal(LiteralKind::Int(Base::Decimal)),
            TokenKind::Semicolon,
        ]
    );
    assert_eq!(value(&toks[1]), Some("x"));
    assert_eq!(value(&toks[3]), Some("5"));
    assert_eq!(value(&toks[0]), None);
    assert_eq!(value(&toks[2]), None);
    let spans: Vec<(usize, usize)> = toks.iter().map(|t| (t.span.low, t.span.offset)).collect();
    assert_eq!(spans, vec![(0, 3), (4, 1), (6, 1), (8, 1), (9, 1)]);
    let covered: usize = toks.iter().map(|t| t.span.len()).sum();
    assert_eq!(covered + 3, 10);
    assert_eq!(toks[4].span.end_byte(), 10);
}

#[test]
fn unterminated_string_scenario() {
    let mut lx = Lexer::new("\"abc");
    assert!(lx.next_token().is_none());
    assert!(lx.next_token().is_none());
    assert_eq!(
        lx.errors().clone(),
        vec![LexError { kind: LexErrorKind::UnterminatedString, span: Span::new(0, 4) }]
    );
}

#[test]
fn unterminated_string_after_tokens() {
    let (toks, errs) = all_tokens("a = \"abc");
    assert_eq!(toks.len(), 2);
    assert_eq!(errs, vec![LexError { kind: LexErrorKind::UnterminatedString, span: Span::new(4, 4) }]);
}

#[test]
fn binary_literal() {
    let (toks, errs) = all_tokens("0b1010");
    assert!(errs.is_empty());
    assert_eq!(toks.len(), 1);
    assert_eq!(toks[0].kind, TokenKind::Literal(LiteralKind::Int(Base::Binary)));
    assert_eq!(value(&toks[0]), Some("1010"));
    assert_eq!(toks[0].span, Span::new(0, 6));
}

#[test]
fn hex_and_octal_literals() {
    let (toks, errs) = all_tokens("0x1F 0o17");
    assert!(errs.is_empty());
    assert_eq!(toks[0].kind, TokenKind::Literal(LiteralKind::Int(Base::Hexadecimal)));
    assert_eq!(value(&toks[0]), Some("1F"));
    assert_eq!(toks[1].kind, TokenKind::Literal(LiteralKind::Int(Base::Octal)));
    assert_eq!(value(&toks[1]), Some("17"));
}

#[test]
fn decimal_float_literal() {
    let (toks, errs) = all_tokens("3.14");
    assert!(errs.is_empty());
    assert_eq!(toks.len(), 1);
    assert_eq!(toks[0].kind, TokenKind::Literal(LiteralKind::Float(Base::Decimal)));
    assert_eq!(value(&toks[0]), Some("3.14"));
}

#[test]
fn prefixed_fraction_is_rejected() {
    let (toks, errs) = all_tokens("0b1.1");
    assert!(toks.is_empty());
    assert_eq!(errs, vec![LexError { kind: LexErrorKind::InvalidDigit, span: Span::new(0, 5) }]);
}

#[test]
fn invalid_digit_for_base() {
    let (toks, errs) = all_tokens("0b102 x");
    assert_eq!(errs, vec![LexError { kind: LexErrorKind::InvalidDigit, span: Span::new(0, 5) }]);
    assert_eq!(toks.len(), 1);
    assert_eq!(toks[0].kind, TokenKind::Ident);
}

#[test]
fn integer_then_method_dot() {
    let (toks, _) = all_tokens("1.x");
    let kinds: Vec<TokenKind> = toks.iter().map(|t| t.kind).collect();
    assert_eq!(
        kinds,
        vec![TokenKind::Literal(LiteralKind::Int(Base::Decimal)), TokenKind::Dot, TokenKind::Ident]
    );
}

#[test]
fn nested_block_comment() {
    let src = "/* /* inner */ */";
    let (toks, errs) = all_tokens(src);
    assert!(errs.is_empty());
    assert_eq!(toks.len(), 1);
    assert_eq!(toks[0].kind, TokenKind::Comment { kind: CommentKind::Block, doc: false });
    assert_eq!(toks[0].span, Span::new(0, src.len()));
    assert!(toks[0].skippable());
}

#[test]
fn unterminated_nested_block_comment() {
    let src = "/* /* unterminated";
    let (toks, errs) = all_tokens(src);
    assert!(toks.is_empty());
    assert_eq!(
        errs,
        vec![LexError { kind: LexErrorKind::UnterminatedBlockComment, span: Span::new(0, src.len()) }]
    );
}

#[test]
fn doc_comments() {
    let (toks, errs) = all_tokens("/// hi\n/** doc */ /**/ // plain");
    assert!(errs.is_empty());
    assert_eq!(toks[0].kind, TokenKind::Comment { kind: CommentKind::Line, doc: true });
    assert_eq!(value(&toks[0]), Some(" hi"));
    assert_eq!(toks[0].span, Span::new(0, 6));
    assert_eq!(toks[1].kind, TokenKind::Comment { kind: CommentKind::Block, doc: true });
    assert_eq!(value(&toks[1]), Some(" doc "));
    assert_eq!(toks[2].kind, TokenKind::Comment { kind: CommentKind::Block, doc: false });
    assert_eq!(value(&toks[2]), Some(""));
    assert_eq!(toks[3].kind, TokenKind::Comment { kind: CommentKind::Line, doc: false });
    assert_eq!(value(&toks[3]), Some(" plain"));
}

#[test]
fn every_keyword_is_recognised() {
    let words = [
        ("let", KeywordKind::Let),
        ("mut", KeywordKind::Mut),
        ("return", KeywordKind::Return),
        ("if", KeywordKind::If),
        ("else", KeywordKind::Else),
        ("for", KeywordKind::For),
        ("in", KeywordKind::In),
        ("continue", KeywordKind::Continue),
        ("break", KeywordKind::Break),
        ("fn", KeywordKind::Fn),
        ("extern", KeywordKind::Extern),
        ("struct", KeywordKind::Struct),
        ("as", KeywordKind::As),
        ("inout", KeywordKind::InOut),
        ("impl", KeywordKind::Impl),
        ("pub", KeywordKind::Pub),
        ("trait", KeywordKind::Trait),
        ("implements", KeywordKind::Implements),
        ("implicit", KeywordKind::Implicit),
        ("consume", KeywordKind::Consume),
        ("loop", KeywordKind::Loop),
    ];
    for (w, k) in words.iter() {
        let (toks, errs) = all_tokens(w);
        assert!(errs.is_empty());
        assert_eq!(toks.len(), 1);
        assert_eq!(toks[0].kind, TokenKind::Keyword(*k));
        assert_eq!(toks[0].span, Span::new(0, w.len()));
    }
}

#[test]
fn keyword_prefixes_are_identifiers() {
    for w in ["lets", "iff", "_let", "Let", "implement", "loops", "x1"].iter() {
        let (toks, errs) = all_tokens(w);
        assert!(errs.is_empty());
        assert_eq!(toks.len(), 1);
        assert_eq!(toks[0].kind, TokenKind::Ident);
        assert_eq!(value(&toks[0]), Some(*w));
    }
}

#[test]
fn string_and_char_literals() {
    let (toks, errs) = all_tokens("\"a\\nb\\\"c\" 'x' '\\''");
    assert!(errs.is_empty());
    assert_eq!(toks[0].kind, TokenKind::Literal(LiteralKind::String));
    assert_eq!(value(&toks[0]), Some("a\nb\"c"));
    assert_eq!(toks[0].span, Span::new(0, 9));
    assert_eq!(toks[1].kind, TokenKind::Literal(LiteralKind::Char));
    assert_eq!(value(&toks[1]), Some("x"));
    assert_eq!(toks[2].kind, TokenKind::Literal(LiteralKind::Char));
    assert_eq!(value(&toks[2]), Some("'"));
}

#[test]
fn unterminated_char_stops_at_line_end() {
    let (toks, errs) = all_tokens("'ab\nx");
    assert_eq!(errs, vec![LexError { kind: LexErrorKind::UnterminatedChar, span: Span::new(0, 3) }]);
    assert_eq!(toks.len(), 1);
    assert_eq!(toks[0].span, Span::new(4, 1));
}

#[test]
fn unrecognized_characters_are_reported_and_skipped() {
    let (toks, errs) = all_tokens("a \u{20ac} b");
    assert_eq!(
        errs,
        vec![LexError { kind: LexErrorKind::UnrecognizedCharacter, span: Span::new(2, 3) }]
    );
    assert_eq!(toks.len(), 2);
    assert_eq!(toks[1].span, Span::new(6, 1));
}

#[test]
fn several_errors_in_one_pass() {
    let (toks, errs) = all_tokens("` 0b2 \\");
    assert!(toks.is_empty());
    let kinds: Vec<LexErrorKind> = errs.iter().map(|e| e.kind).collect();
    assert_eq!(
        kinds,
        vec![
            LexErrorKind::UnrecognizedCharacter,
            LexErrorKind::InvalidDigit,
            LexErrorKind::UnrecognizedCharacter,
        ]
    );
}

#[test]
fn spans_tile_the_source() {
    let src = "fn f(a: \"\u{e9}\") { /* c */ a.b += 0x1F; } // end\n";
    let mut lx = Lexer::new(src);
    let mut pieces: Vec<(usize, usize)> = Vec::new();
    while let Some(t) = lx.next_token() {
        pieces.push((t.span.low, t.span.end_byte()));
    }
    assert!(lx.errors().is_empty());
    assert_eq!(lx.offset(), src.len());
    let mut at = 0;
    for (lo, hi) in pieces {
        assert!(src[at..lo].chars().all(|c| c.is_whitespace()));
        assert!(lo < hi);
        at = hi;
    }
    assert!(src[at..].chars().all(|c| c.is_whitespace()));
}

#[test]
fn multibyte_spans_are_bytes() {
    let (toks, _) = all_tokens("\"\u{e9}t\u{e9}\" x");
    assert_eq!(toks[0].span, Span::new(0, 7));
    assert_eq!(value(&toks[0]), Some("\u{e9}t\u{e9}"));
    assert_eq!(toks[1].span, Span::new(8, 1));
}

#[test]
fn punctuation_kinds() {
    let (toks, errs) = all_tokens(";,.()[]{}@#~?:$=!<>+-&|*/^%");
    assert!(errs.is_empty());
    assert_eq!(toks.len(), 27);
    assert_eq!(toks[0].kind, TokenKind::Semicolon);
    assert_eq!(toks[25].kind, TokenKind::Caret);
    assert_eq!(toks[26].kind, TokenKind::Percent);
    assert!(toks.iter().all(|t| t.value.is_none() && t.span.len() == 1 && !t.skippable()));
}

#[test]
fn advance_walks_characters() {
    let mut lx = Lexer::new("a\u{e9}");
    assert_eq!(lx.advance(), Some('a'));
    assert_eq!(lx.offset(), 1);
    assert_eq!(lx.advance(), Some('\u{e9}'));
    assert_eq!(lx.offset(), 3);
    assert_eq!(lx.advance(), None);
    assert_eq!(lx.offset(), 3);
}

#[test]
fn empty_source_has_no_tokens() {
    let (toks, errs) = all_tokens("");
    assert!(toks.is_empty());
    assert!(errs.is_empty());
}
