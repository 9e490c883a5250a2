//! The scanning rules: what lexeme starts at a given character position and
//! where it ends, stated as spec functions and computed by exec functions.
use vstd::prelude::*;
use crate::tokens::{
    Base, CommentKind, KeywordKind, KeywordTable, LiteralKind, TokenKind, keyword_of,
    keyword_spelling, punct, punct_of,
};

verus! {

/// The lexical errors.
#[derive(Debug, Copy, Clone, PartialEq, Eq, Structural, Hash)]
pub enum LexErrorKind {
    UnterminatedBlockComment,
    UnterminatedString,
    UnterminatedChar,
    InvalidDigit,
    UnrecognizedCharacter,
}

/// What one scanning step finds.
#[derive(Debug, Copy, Clone, PartialEq, Eq, Structural)]
pub enum Lexeme {
    /// A run of whitespace, which yields no token.
    Space,
    /// A token of the given kind.
    Tok(TokenKind),
    /// A malformed region.
    Bad(LexErrorKind),
}

/// The character classes whose maximal runs the scanner measures.
#[derive(Debug, Copy, Clone, PartialEq, Eq, Structural)]
pub enum CharClass {
    Space,
    IdentContinue,
    Alnum,
    NotNewline,
}

pub open spec fn is_space(c: char) -> bool {
    c == ' ' || c == '\t' || c == '\n' || c == '\r'
}

pub open spec fn is_letter(c: char) -> bool {
    ('a' <= c && c <= 'z') || ('A' <= c && c <= 'Z')
}

pub open spec fn is_decimal(c: char) -> bool {
    '0' <= c && c <= '9'
}

pub open spec fn is_ident_start(c: char) -> bool {
    is_letter(c) || c == '_'
}

pub open spec fn is_ident_continue(c: char) -> bool {
    is_ident_start(c) || is_decimal(c)
}

pub open spec fn in_class(k: CharClass, c: char) -> bool {
    match k {
        CharClass::Space => is_space(c),
        CharClass::IdentContinue => is_ident_continue(c),
        CharClass::Alnum => is_letter(c) || is_decimal(c),
        CharClass::NotNewline => c != '\n',
    }
}

/// Whether `c` is a digit of base `b`.
pub open spec fn is_digit_in(b: Base, c: char) -> bool {
    match b {
        Base::Binary => c == '0' || c == '1',
        Base::Octal => '0' <= c && c <= '7',
        Base::Decimal => is_decimal(c),
        Base::Hexadecimal => is_decimal(c) || ('a' <= c && c <= 'f') || ('A' <= c && c <= 'F'),
    }
}

/// The end of the maximal run of class `k` that starts at `i`.
pub open spec fn run_end(s: Seq<char>, i: int, k: CharClass) -> int
    decreases s.len() - i,
{
    if 0 <= i < s.len() && in_class(k, s[i]) {
        run_end(s, i + 1, k)
    } else {
        i
    }
}

/// Scanning a block comment's inside from `i` at nesting `depth`: the
/// position just past the `*/` that closes it, or `None` when the input
/// ends first.
pub open spec fn block_close(s: Seq<char>, i: int, depth: nat) -> Option<int>
    decreases s.len() - i,
{
    if i < 0 || i >= s.len() {
        None
    } else if s[i] == '/' && i + 1 < s.len() && s[i + 1] == '*' {
        block_close(s, i + 2, depth + 1)
    } else if s[i] == '*' && i + 1 < s.len() && s[i + 1] == '/' {
        if depth <= 1 {
            Some(i + 2)
        } else {
            block_close(s, i + 2, (depth - 1) as nat)
        }
    } else {
        block_close(s, i + 1, depth)
    }
}

/// Scanning a quoted literal's inside from `i`, closed by `q`: `(true, e)`
/// with `e` just past the closing quote, or `(false, e)` with `e` where the
/// literal stops unclosed (end of input; end of line for characters).
pub open spec fn quote_scan(s: Seq<char>, i: int, q: char) -> (bool, int)
    decreases s.len() - i,
{
    if i < 0 || i >= s.len() {
        (false, s.len() as int)
    } else if s[i] == q {
        (true, i + 1)
    } else if q == '\'' && s[i] == '\n' {
        (false, i)
    } else if s[i] == '\\' && i + 1 < s.len() {
        if q == '\'' && s[i + 1] == '\n' {
            (false, i + 1)
        } else {
            quote_scan(s, i + 2, q)
        }
    } else {
        quote_scan(s, i + 1, q)
    }
}

/// The character that an escape `\c` stands for.
pub open spec fn escaped(c: char) -> char {
    if c == 'n' {
        '\n'
    } else if c == 't' {
        '\t'
    } else if c == 'r' {
        '\r'
    } else if c == '0' {
        '\0'
    } else {
        c
    }
}

/// The text of a literal's inside with its escapes decoded.
pub open spec fn unescape(t: Seq<char>) -> Seq<char>
    decreases t.len(),
{
    if t.len() == 0 {
        t
    } else if t[0] == '\\' && t.len() >= 2 {
        seq![escaped(t[1])] + unescape(t.subrange(2, t.len() as int))
    } else {
        seq![t[0]] + unescape(t.subrange(1, t.len() as int))
    }
}

/// Every character of `s` in `[a, b)` is a digit of base `b`.
pub open spec fn all_digits(s: Seq<char>, a: int, b: int, base: Base) -> bool {
    forall|k: int| a <= k < b ==> is_digit_in(base, #[trigger] s[k])
}

/// The base that a `0b`, `0o` or `0x` prefix at `i` announces.
pub open spec fn prefix_base(s: Seq<char>, i: int) -> Option<Base> {
    if 0 <= i && i + 1 < s.len() && s[i] == '0' {
        if s[i + 1] == 'b' {
            Some(Base::Binary)
        } else if s[i + 1] == 'o' {
            Some(Base::Octal)
        } else if s[i + 1] == 'x' {
            Some(Base::Hexadecimal)
        } else {
            None
        }
    } else {
        None
    }
}

/// Scanning a numeric literal that starts at `i`: the lexeme, its end and
/// its decoded text (the digits after the prefix; the whole text of a float).
pub open spec fn scan_number(s: Seq<char>, i: int) -> (Lexeme, int, Option<Seq<char>>) {
    let pb = prefix_base(s, i);
    let base = match pb {
        Some(b) => b,
        None => Base::Decimal,
    };
    let d = if pb is Some { i + 2 } else { i };
    let w = run_end(s, d, CharClass::Alnum);
    if w + 1 < s.len() && s[w] == '.' && is_decimal(s[w + 1]) {
        let f = run_end(s, w + 1, CharClass::Alnum);
        if pb is None && all_digits(s, i, w, Base::Decimal) && all_digits(
            s,
            w + 1,
            f,
            Base::Decimal,
        ) {
            (Lexeme::Tok(TokenKind::Literal(LiteralKind::Float(Base::Decimal))), f, Some(s.subrange(i, f)))
        } else {
            (Lexeme::Bad(LexErrorKind::InvalidDigit), f, None)
        }
    } else if d < w && all_digits(s, d, w, base) {
        (Lexeme::Tok(TokenKind::Literal(LiteralKind::Int(base))), w, Some(s.subrange(d, w)))
    } else {
        (Lexeme::Bad(LexErrorKind::InvalidDigit), w, None)
    }
}

/// A line comment starting at `i`.
pub open spec fn scan_line_comment(s: Seq<char>, i: int) -> (Lexeme, int, Option<Seq<char>>) {
    let doc = i + 2 < s.len() && s[i + 2] == '/';
    let body = if doc { i + 3 } else { i + 2 };
    let e = run_end(s, i + 2, CharClass::NotNewline);
    (Lexeme::Tok(TokenKind::Comment { kind: CommentKind::Line, doc }), e, Some(s.subrange(body, e)))
}

/// A block comment starting at `i`.
pub open spec fn scan_block_comment(s: Seq<char>, i: int) -> (Lexeme, int, Option<Seq<char>>) {
    match block_close(s, i + 2, 1) {
        Some(e) => {
            let doc = i + 3 < s.len() && s[i + 2] == '*' && s[i + 3] != '/';
            let body = if doc { i + 3 } else { i + 2 };
            (
                Lexeme::Tok(TokenKind::Comment { kind: CommentKind::Block, doc }),
                e,
                Some(s.subrange(body, e - 2)),
            )
        },
        None => (Lexeme::Bad(LexErrorKind::UnterminatedBlockComment), s.len() as int, None),
    }
}

/// A quoted literal starting at `i` with the quote `q`.
pub open spec fn scan_quoted(s: Seq<char>, i: int, q: char) -> (Lexeme, int, Option<Seq<char>>) {
    let (closed, e) = quote_scan(s, i + 1, q);
    if closed {
        let kind = if q == '"' { LiteralKind::String } else { LiteralKind::Char };
        (Lexeme::Tok(TokenKind::Literal(kind)), e, Some(unescape(s.subrange(i + 1, e - 1))))
    } else {
        let err = if q == '"' {
            LexErrorKind::UnterminatedString
        } else {
            LexErrorKind::UnterminatedChar
        };
        (Lexeme::Bad(err), e, None)
    }
}

/// An identifier or keyword starting at `i`.
pub open spec fn scan_word(s: Seq<char>, i: int) -> (Lexeme, int, Option<Seq<char>>) {
    let e = run_end(s, i, CharClass::IdentContinue);
    let w = s.subrange(i, e);
    match keyword_of(w) {
        Some(k) => (Lexeme::Tok(TokenKind::Keyword(k)), e, None),
        None => (Lexeme::Tok(TokenKind::Ident), e, Some(w)),
    }
}

/// The lexeme that starts at position `i` of `s`, where it ends, and the
/// decoded text it carries.
pub open spec fn scan(s: Seq<char>, i: int) -> (Lexeme, int, Option<Seq<char>>) {
    let c = s[i];
    if is_space(c) {
        (Lexeme::Space, run_end(s, i, CharClass::Space), None)
    } else if c == '/' && i + 1 < s.len() && s[i + 1] == '/' {
        scan_line_comment(s, i)
    } else if c == '/' && i + 1 < s.len() && s[i + 1] == '*' {
        scan_block_comment(s, i)
    } else if is_ident_start(c) {
        scan_word(s, i)
    } else if is_decimal(c) {
        scan_number(s, i)
    } else if c == '"' || c == '\'' {
        scan_quoted(s, i, c)
    } else {
        match punct_of(c) {
            Some(k) => (Lexeme::Tok(k), i + 1, None),
            None => (Lexeme::Bad(LexErrorKind::UnrecognizedCharacter), i + 1, None),
        }
    }
}

pub fn char_in_class(k: CharClass, c: char) -> (r: bool)
    ensures
        r == in_class(k, c),
{
    match k {
        CharClass::Space => c == ' ' || c == '\t' || c == '\n' || c == '\r',
        CharClass::IdentContinue => ('a' <= c && c <= 'z') || ('A' <= c && c <= 'Z') || c == '_'
            || ('0' <= c && c <= '9'),
        CharClass::Alnum => ('a' <= c && c <= 'z') || ('A' <= c && c <= 'Z') || ('0' <= c && c
            <= '9'),
        CharClass::NotNewline => c != '\n',
    }
}

pub fn digit_in(b: Base, c: char) -> (r: bool)
    ensures
        r == is_digit_in(b, c),
{
    match b {
        Base::Binary => c == '0' || c == '1',
        Base::Octal => '0' <= c && c <= '7',
        Base::Decimal => '0' <= c && c <= '9',
        Base::Hexadecimal => ('0' <= c && c <= '9') || ('a' <= c && c <= 'f') || ('A' <= c && c
            <= 'F'),
    }
}

/// The end of the maximal run of class `k` from `i`.
pub fn find_run_end(s: &[char], i: usize, k: CharClass) -> (r: usize)
    requires
        i <= s@.len(),
    ensures
        r == run_end(s@, i as int, k),
        i <= r <= s@.len(),
{
    let mut j = i;
    while j < s.len() && char_in_class(k, s[j])
        invariant
            i <= j <= s@.len(),
            run_end(s@, j as int, k) == run_end(s@, i as int, k),
        decreases s@.len() - j,
    {
        j = j + 1;
    }
    j
}

/// Where the block comment whose inside starts at `i` closes.
pub fn find_block_close(s: &[char], i: usize) -> (r: Option<usize>)
    requires
        2 <= i <= s@.len(),
    ensures
        match r {
            Some(e) => block_close(s@, i as int, 1) == Some(e as int) && i + 2 <= e <= s@.len(),
            None => block_close(s@, i as int, 1) is None,
        },
{
    let mut j = i;
    let mut depth: usize = 1;
    while j < s.len()
        invariant
            i <= j <= s@.len(),
            1 <= depth <= j,
            block_close(s@, j as int, depth as nat) == block_close(s@, i as int, 1),
        decreases s@.len() - j,
    {
        if s[j] == '/' && j + 1 < s.len() && s[j + 1] == '*' {
            depth = depth + 1;
            j = j + 2;
        } else if s[j] == '*' && j + 1 < s.len() && s[j + 1] == '/' {
            if depth <= 1 {
                return Some(j + 2);
            }
            depth = depth - 1;
            j = j + 2;
        } else {
            j = j + 1;
        }
    }
    None
}

/// Where the quoted literal whose inside starts at `i` closes or stops.
pub fn find_quote_end(s: &[char], i: usize, q: char) -> (r: (bool, usize))
    requires
        i <= s@.len(),
    ensures
        quote_scan(s@, i as int, q) == (r.0, r.1 as int),
        i <= r.1 <= s@.len(),
        r.0 ==> i < r.1,
{
    let mut j = i;
    while j < s.len()
        invariant
            i <= j <= s@.len(),
            quote_scan(s@, j as int, q) == quote_scan(s@, i as int, q),
        decreases s@.len() - j,
    {
        if s[j] == q {
            return (true, j + 1);
        } else if q == '\'' && s[j] == '\n' {
            return (false, j);
        } else if s[j] == '\\' && j + 1 < s.len() {
            if q == '\'' && s[j + 1] == '\n' {
                return (false, j + 1);
            }
            j = j + 2;
        } else {
            j = j + 1;
        }
    }
    (false, s.len())
}

/// Whether every character in `[a, b)` is a digit of `base`.
pub fn check_digits(s: &[char], a: usize, b: usize, base: Base) -> (r: bool)
    requires
        a <= b <= s@.len(),
    ensures
        r == all_digits(s@, a as int, b as int, base),
{
    let mut j = a;
    while j < b
        invariant
            a <= j <= b <= s@.len(),
            all_digits(s@, a as int, j as int, base),
        decreases b - j,
    {
        if !digit_in(base, s[j]) {
            return false;
        }
        j = j + 1;
    }
    true
}

/// The characters of `s` in `[a, b)`.
pub fn copy_range(s: &[char], a: usize, b: usize) -> (r: Vec<char>)
    requires
        a <= b <= s@.len(),
    ensures
        r@ == s@.subrange(a as int, b as int),
{
    let mut out: Vec<char> = Vec::new();
    let mut j = a;
    while j < b
        invariant
            a <= j <= b <= s@.len(),
            out@ == s@.subrange(a as int, j as int),
        decreases b - j,
    {
        out.push(s[j]);
        j = j + 1;
        assert(out@ =~= s@.subrange(a as int, j as int));
    }
    out
}

pub fn escape_char(c: char) -> (r: char)
    ensures
        r == escaped(c),
{
    if c == 'n' {
        '\n'
    } else if c == 't' {
        '\t'
    } else if c == 'r' {
        '\r'
    } else if c == '0' {
        '\0'
    } else {
        c
    }
}

/// The characters of `s` in `[a, b)` with escapes decoded.
pub fn unescape_range(s: &[char], a: usize, b: usize) -> (r: Vec<char>)
    requires
        a <= b <= s@.len(),
    ensures
        r@ == unescape(s@.subrange(a as int, b as int)),
{
    let mut out: Vec<char> = Vec::new();
    let mut j = a;
    while j < b
        invariant
            a <= j <= b <= s@.len(),
            unescape(s@.subrange(a as int, b as int)) == out@ + unescape(
                s@.subrange(j as int, b as int),
            ),
        decreases b - j,
    {
        let ghost t = s@.subrange(j as int, b as int);
        let ghost old_out = out@;
        if s[j] == '\\' && j + 1 < b {
            out.push(escape_char(s[j + 1]));
            assert(t.subrange(2, t.len() as int) =~= s@.subrange(j + 2, b as int));
            assert(old_out + unescape(t) =~= out@ + unescape(s@.subrange(j + 2, b as int)));
            j = j + 2;
        } else {
            out.push(s[j]);
            assert(t.subrange(1, t.len() as int) =~= s@.subrange(j + 1, b as int));
            assert(old_out + unescape(t) =~= out@ + unescape(s@.subrange(j + 1, b as int)));
            j = j + 1;
        }
    }
    assert(unescape(s@.subrange(b as int, b as int)) =~= Seq::<char>::empty());
    assert(out@ + Seq::<char>::empty() =~= out@);
    out
}

/// The decoded text a scanned token carries, as a sequence.
pub open spec fn opt_chars(o: Option<Vec<char>>) -> Option<Seq<char>> {
    match o {
        Some(v) => Some(v@),
        None => None,
    }
}

pub proof fn lemma_run_end_bounds(s: Seq<char>, i: int, k: CharClass)
    requires
        0 <= i <= s.len(),
    ensures
        i <= run_end(s, i, k) <= s.len(),
        i < s.len() && in_class(k, s[i]) ==> i < run_end(s, i, k),
    decreases s.len() - i,
{
    if i < s.len() && in_class(k, s[i]) {
        lemma_run_end_bounds(s, i + 1, k);
    }
}

pub proof fn lemma_block_close_bounds(s: Seq<char>, i: int, depth: nat)
    requires
        0 <= i,
    ensures
        block_close(s, i, depth) matches Some(e) ==> i + 2 <= e <= s.len(),
    decreases s.len() - i,
{
    if i < 0 || i >= s.len() {
    } else if s[i] == '/' && i + 1 < s.len() && s[i + 1] == '*' {
        lemma_block_close_bounds(s, i + 2, depth + 1);
    } else if s[i] == '*' && i + 1 < s.len() && s[i + 1] == '/' {
        if depth > 1 {
            lemma_block_close_bounds(s, i + 2, (depth - 1) as nat);
        }
    } else {
        lemma_block_close_bounds(s, i + 1, depth);
    }
}

/// Every scanning step consumes at least one character and stays in the input.
pub proof fn lemma_scan_advances(s: Seq<char>, i: int)
    requires
        0 <= i < s.len(),
    ensures
        i < scan(s, i).1 <= s.len(),
{
    let c = s[i];
    lemma_run_end_bounds(s, i, CharClass::Space);
    lemma_run_end_bounds(s, i, CharClass::IdentContinue);
    if c == '/' && i + 1 < s.len() && (s[i + 1] == '/' || s[i + 1] == '*') {
        lemma_run_end_bounds(s, i + 2, CharClass::NotNewline);
        lemma_block_close_bounds(s, i + 2, 1);
    } else if is_decimal(c) {
        let d = if prefix_base(s, i) is Some { i + 2 } else { i };
        lemma_run_end_bounds(s, d, CharClass::Alnum);
        let w = run_end(s, d, CharClass::Alnum);
        if w + 1 < s.len() {
            lemma_run_end_bounds(s, w + 1, CharClass::Alnum);
        }
    } else if c == '"' || c == '\'' {
        lemma_quote_scan_bounds(s, i + 1, c);
    }
}

pub proof fn lemma_quote_scan_bounds(s: Seq<char>, i: int, q: char)
    requires
        0 <= i <= s.len(),
    ensures
        i <= quote_scan(s, i, q).1 <= s.len(),
    decreases s.len() - i,
{
    if i < s.len() && s[i] != q && !(q == '\'' && s[i] == '\n') {
        if s[i] == '\\' && i + 1 < s.len() {
            if !(q == '\'' && s[i + 1] == '\n') {
                lemma_quote_scan_bounds(s, i + 2, q);
            }
        } else {
            lemma_quote_scan_bounds(s, i + 1, q);
        }
    }
}

fn lex_number(s: &[char], i: usize) -> (r: (Lexeme, usize, Option<Vec<char>>))
    requires
        i < s@.len(),
        is_decimal(s@[i as int]),
    ensures
        (r.0, r.1 as int, opt_chars(r.2)) == scan_number(s@, i as int),
{
    let mut base = Base::Decimal;
    let mut d = i;
    let mut prefixed = false;
    if s[i] == '0' && i + 1 < s.len() {
        if s[i + 1] == 'b' {
            base = Base::Binary;
            d = i + 2;
            prefixed = true;
        } else if s[i + 1] == 'o' {
            base = Base::Octal;
            d = i + 2;
            prefixed = true;
        } else if s[i + 1] == 'x' {
            base = Base::Hexadecimal;
            d = i + 2;
            prefixed = true;
        }
    }
    assert(prefixed == prefix_base(s@, i as int) is Some);
    let w = find_run_end(s, d, CharClass::Alnum);
    if w < s.len() && w + 1 < s.len() && s[w] == '.' && '0' <= s[w + 1] && s[w + 1] <= '9' {
        let f = find_run_end(s, w + 1, CharClass::Alnum);
        if !prefixed && check_digits(s, i, w, Base::Decimal) && check_digits(
            s,
            w + 1,
            f,
            Base::Decimal,
        ) {
            (
                Lexeme::Tok(TokenKind::Literal(LiteralKind::Float(Base::Decimal))),
                f,
                Some(copy_range(s, i, f)),
            )
        } else {
            (Lexeme::Bad(LexErrorKind::InvalidDigit), f, None)
        }
    } else if d < w && check_digits(s, d, w, base) {
        (Lexeme::Tok(TokenKind::Literal(LiteralKind::Int(base))), w, Some(copy_range(s, d, w)))
    } else {
        (Lexeme::Bad(LexErrorKind::InvalidDigit), w, None)
    }
}

fn lex_block_comment(s: &[char], i: usize) -> (r: (Lexeme, usize, Option<Vec<char>>))
    requires
        i + 1 < s@.len() <= usize::MAX,
        s@[i as int] == '/',
        s@[i + 1] == '*',
    ensures
        (r.0, r.1 as int, opt_chars(r.2)) == scan_block_comment(s@, i as int),
{
    match find_block_close(s, i + 2) {
        Some(e) => {
            let doc = i + 3 < s.len() && s[i + 2] == '*' && s[i + 3] != '/';
            let body = if doc { i + 3 } else { i + 2 };
            if doc {
                proof {
                    lemma_block_close_bounds(s@, i + 3, 1);
                }
            }
            (
                Lexeme::Tok(TokenKind::Comment { kind: CommentKind::Block, doc }),
                e,
                Some(copy_range(s, body, e - 2)),
            )
        },
        None => (Lexeme::Bad(LexErrorKind::UnterminatedBlockComment), s.len(), None),
    }
}

fn lex_quoted(s: &[char], i: usize, q: char) -> (r: (Lexeme, usize, Option<Vec<char>>))
    requires
        i < s@.len() <= usize::MAX,
    ensures
        (r.0, r.1 as int, opt_chars(r.2)) == scan_quoted(s@, i as int, q),
{
    let (closed, e) = find_quote_end(s, i + 1, q);
    if closed {
        let kind = if q == '"' { LiteralKind::String } else { LiteralKind::Char };
        (Lexeme::Tok(TokenKind::Literal(kind)), e, Some(unescape_range(s, i + 1, e - 1)))
    } else {
        let err = if q == '"' {
            LexErrorKind::UnterminatedString
        } else {
            LexErrorKind::UnterminatedChar
        };
        (Lexeme::Bad(err), e, None)
    }
}

/// The lexeme at position `i`, where it ends, and the decoded text it carries.
pub fn scan_at(s: &[char], keywords: &KeywordTable, i: usize) -> (r: (Lexeme, usize, Option<Vec<char>>))
    requires
        i < s@.len(),
        keywords.wf(),
    ensures
        (r.0, r.1 as int, opt_chars(r.2)) == scan(s@, i as int),
        i < r.1 <= s@.len(),
{
    proof {
        lemma_scan_advances(s@, i as int);
    }
    let c = s[i];
    if c == ' ' || c == '\t' || c == '\n' || c == '\r' {
        (Lexeme::Space, find_run_end(s, i, CharClass::Space), None)
    } else if c == '/' && i + 1 < s.len() && s[i + 1] == '/' {
        let doc = i + 2 < s.len() && s[i + 2] == '/';
        let body = if doc { i + 3 } else { i + 2 };
        proof {
            lemma_run_end_bounds(s@, i + 2, CharClass::NotNewline);
        }
        let e = find_run_end(s, i + 2, CharClass::NotNewline);
        (
            Lexeme::Tok(TokenKind::Comment { kind: CommentKind::Line, doc }),
            e,
            Some(copy_range(s, body, e)),
        )
    } else if c == '/' && i + 1 < s.len() && s[i + 1] == '*' {
        lex_block_comment(s, i)
    } else if ('a' <= c && c <= 'z') || ('A' <= c && c <= 'Z') || c == '_' {
        let e = find_run_end(s, i, CharClass::IdentContinue);
        let w = copy_range(s, i, e);
        match keywords.lookup(w.as_slice()) {
            Some(k) => (Lexeme::Tok(TokenKind::Keyword(k)), e, None),
            None => (Lexeme::Tok(TokenKind::Ident), e, Some(w)),
        }
    } else if '0' <= c && c <= '9' {
        lex_number(s, i)
    } else if c == '"' || c == '\'' {
        lex_quoted(s, i, c)
    } else {
        match punct(c) {
            Some(k) => (Lexeme::Tok(k), i + 1, None),
            None => (Lexeme::Bad(LexErrorKind::UnrecognizedCharacter), i + 1, None),
        }
    }
}

/// Every character of a run belongs to its class.
pub proof fn lemma_run_end_class(s: Seq<char>, i: int, k: CharClass)
    requires
        0 <= i <= s.len(),
    ensures
        forall|j: int| i <= j < run_end(s, i, k) ==> in_class(k, #[trigger] s[j]),
        run_end(s, i, k) < s.len() ==> !in_class(k, s[run_end(s, i, k)]),
    decreases s.len() - i,
{
    lemma_run_end_bounds(s, i, k);
    if i < s.len() && in_class(k, s[i]) {
        lemma_run_end_class(s, i + 1, k);
    }
}

/// A run that reaches the end of the text when every character from `i`
/// is in the class.
pub proof fn lemma_run_end_full(s: Seq<char>, i: int, k: CharClass)
    requires
        0 <= i <= s.len(),
        forall|j: int| i <= j < s.len() ==> in_class(k, #[trigger] s[j]),
    ensures
        run_end(s, i, k) == s.len(),
    decreases s.len() - i,
{
    if i < s.len() {
        lemma_run_end_full(s, i + 1, k);
    }
}

/// Keyword exactness: a word made of identifier characters is scanned as
/// one token covering all of it, which is the keyword spelled by the word
/// if there is one and an identifier otherwise; in particular each
/// keyword's own spelling is scanned as that keyword.
pub proof fn lemma_keyword_exact(w: Seq<char>)
    requires
        w.len() > 0,
        is_ident_start(w[0]),
        forall|j: int| 0 <= j < w.len() ==> is_ident_continue(#[trigger] w[j]),
    ensures
        scan(w, 0).1 == w.len(),
        forall|k: KeywordKind| keyword_spelling(k) == w ==> scan(w, 0).0 == Lexeme::Tok(TokenKind::Keyword(k)),
        (forall|k: KeywordKind| keyword_spelling(k) != w) ==> scan(w, 0).0 == Lexeme::Tok(TokenKind::Ident),
{
    assert forall|j: int| 0 <= j < w.len() implies in_class(CharClass::IdentContinue, #[trigger] w[j]) by {
        assert(is_ident_continue(w[j]));
    }
    lemma_run_end_full(w, 0, CharClass::IdentContinue);
    assert(w.subrange(0, w.len() as int) =~= w);
    assert forall|k: KeywordKind| keyword_spelling(k) == w implies scan(w, 0).0 == Lexeme::Tok(TokenKind::Keyword(k)) by {
        let c = choose|c: KeywordKind| keyword_spelling(c) == w;
        crate::tokens::lemma_spelling_injective(c, k);
    }
}

/// Each keyword's spelling is looked up as that keyword.
pub proof fn lemma_keyword_of_spelling(k: KeywordKind)
    ensures
        keyword_of(keyword_spelling(k)) == Some(k),
{
    let c = choose|c: KeywordKind| keyword_spelling(c) == keyword_spelling(k);
    crate::tokens::lemma_spelling_injective(c, k);
}

} // verus!
