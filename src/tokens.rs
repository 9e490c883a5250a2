use vstd::prelude::*;
use crate::span::Span;

verus! {

/// A reserved word of the language.
#[derive(Debug, Copy, Clone, PartialEq, Eq, Structural, Hash)]
pub enum KeywordKind {
    Let,
    Mut,
    Return,
    If,
    Else,
    For,
    In,
    Continue,
    Break,
    Fn,
    Extern,
    Struct,
    As,
    InOut,
    Impl,
    Pub,
    Trait,
    Implements,
    Implicit,
    Consume,
    Loop,
}

/// How a keyword is written in source text.
pub open spec fn keyword_spelling(k: KeywordKind) -> Seq<char> {
    match k {
        KeywordKind::Let => seq!['l', 'e', 't'],
        KeywordKind::Mut => seq!['m', 'u', 't'],
        KeywordKind::Return => seq!['r', 'e', 't', 'u', 'r', 'n'],
        KeywordKind::If => seq!['i', 'f'],
        KeywordKind::Else => seq!['e', 'l', 's', 'e'],
        KeywordKind::For => seq!['f', 'o', 'r'],
        KeywordKind::In => seq!['i', 'n'],
        KeywordKind::Continue => seq!['c', 'o', 'n', 't', 'i', 'n', 'u', 'e'],
        KeywordKind::Break => seq!['b', 'r', 'e', 'a', 'k'],
        KeywordKind::Fn => seq!['f', 'n'],
        KeywordKind::Extern => seq!['e', 'x', 't', 'e', 'r', 'n'],
        KeywordKind::Struct => seq!['s', 't', 'r', 'u', 'c', 't'],
        KeywordKind::As => seq!['a', 's'],
        KeywordKind::InOut => seq!['i', 'n', 'o', 'u', 't'],
        KeywordKind::Impl => seq!['i', 'm', 'p', 'l'],
        KeywordKind::Pub => seq!['p', 'u', 'b'],
        KeywordKind::Trait => seq!['t', 'r', 'a', 'i', 't'],
        KeywordKind::Implements => seq!['i', 'm', 'p', 'l', 'e', 'm', 'e', 'n', 't', 's'],
        KeywordKind::Implicit => seq!['i', 'm', 'p', 'l', 'i', 'c', 'i', 't'],
        KeywordKind::Consume => seq!['c', 'o', 'n', 's', 'u', 'm', 'e'],
        KeywordKind::Loop => seq!['l', 'o', 'o', 'p'],
    }
}

/// The keyword spelled exactly `w`, if there is one.
pub open spec fn keyword_of(w: Seq<char>) -> Option<KeywordKind> {
    if exists|k: KeywordKind| keyword_spelling(k) == w {
        Some(choose|k: KeywordKind| keyword_spelling(k) == w)
    } else {
        None
    }
}

/// No two keywords share a spelling.
pub proof fn lemma_spelling_injective(a: KeywordKind, b: KeywordKind)
    requires
        keyword_spelling(a) == keyword_spelling(b),
    ensures
        a == b,
{
    let sa = keyword_spelling(a);
    let sb = keyword_spelling(b);
    assert(sa.len() == sb.len());
    assert(sa[0] == sb[0]);
    assert(sa[sa.len() - 1] == sb[sb.len() - 1]);
}

/// The characters of a keyword's spelling.
pub fn spelling(k: KeywordKind) -> (r: Vec<char>)
    ensures
        r@ == keyword_spelling(k),
{
    match k {
        KeywordKind::Let => vec!['l', 'e', 't'],
        KeywordKind::Mut => vec!['m', 'u', 't'],
        KeywordKind::Return => vec!['r', 'e', 't', 'u', 'r', 'n'],
        KeywordKind::If => vec!['i', 'f'],
        KeywordKind::Else => vec!['e', 'l', 's', 'e'],
        KeywordKind::For => vec!['f', 'o', 'r'],
        KeywordKind::In => vec!['i', 'n'],
        KeywordKind::Continue => vec!['c', 'o', 'n', 't', 'i', 'n', 'u', 'e'],
        KeywordKind::Break => vec!['b', 'r', 'e', 'a', 'k'],
        KeywordKind::Fn => vec!['f', 'n'],
        KeywordKind::Extern => vec!['e', 'x', 't', 'e', 'r', 'n'],
        KeywordKind::Struct => vec!['s', 't', 'r', 'u', 'c', 't'],
        KeywordKind::As => vec!['a', 's'],
        KeywordKind::InOut => vec!['i', 'n', 'o', 'u', 't'],
        KeywordKind::Impl => vec!['i', 'm', 'p', 'l'],
        KeywordKind::Pub => vec!['p', 'u', 'b'],
        KeywordKind::Trait => vec!['t', 'r', 'a', 'i', 't'],
        KeywordKind::Implements => vec!['i', 'm', 'p', 'l', 'e', 'm', 'e', 'n', 't', 's'],
        KeywordKind::Implicit => vec!['i', 'm', 'p', 'l', 'i', 'c', 'i', 't'],
        KeywordKind::Consume => vec!['c', 'o', 'n', 's', 'u', 'm', 'e'],
        KeywordKind::Loop => vec!['l', 'o', 'o', 'p'],
    }
}

/// Whether two character slices hold the same characters.
pub fn same_chars(a: &[char], b: &[char]) -> (r: bool)
    ensures
        r == (a@ == b@),
{
    if a.len() != b.len() {
        return false;
    }
    let mut i: usize = 0;
    while i < a.len()
        invariant
            a@.len() == b@.len(),
            i <= a@.len(),
            forall|j: int| 0 <= j < i ==> a@[j] == b@[j],
        decreases a@.len() - i,
    {
        if a[i] != b[i] {
            return false;
        }
        i = i + 1;
    }
    assert(a@ =~= b@);
    true
}

/// The read-only map from keyword spellings to keyword kinds.
pub struct KeywordTable {
    entries: Vec<(Vec<char>, KeywordKind)>,
}

impl KeywordTable {
    /// Every entry pairs a keyword with its own spelling, and every keyword
    /// has an entry.
    pub closed spec fn wf(&self) -> bool {
        &&& forall|i: int|
            0 <= i < self.entries@.len() ==> #[trigger] self.entries@[i].0@ == keyword_spelling(
                self.entries@[i].1,
            )
        &&& forall|k: KeywordKind| #[trigger] self.has_entry(k)
    }

    /// Some entry is for keyword `k`.
    pub closed spec fn has_entry(&self, k: KeywordKind) -> bool {
        exists|i: int| 0 <= i < self.entries@.len() && #[trigger] self.entries@[i].1 == k
    }

    /// The table of all reserved words.
    pub fn new() -> (r: KeywordTable)
        ensures
            r.wf(),
    {
        let mut entries: Vec<(Vec<char>, KeywordKind)> = Vec::new();
        entries.push((spelling(KeywordKind::Let), KeywordKind::Let));
        entries.push((spelling(KeywordKind::Mut), KeywordKind::Mut));
        entries.push((spelling(KeywordKind::Return), KeywordKind::Return));
        entries.push((spelling(KeywordKind::If), KeywordKind::If));
        entries.push((spelling(KeywordKind::Else), KeywordKind::Else));
        entries.push((spelling(KeywordKind::For), KeywordKind::For));
        entries.push((spelling(KeywordKind::In), KeywordKind::In));
        entries.push((spelling(KeywordKind::Continue), KeywordKind::Continue));
        entries.push((spelling(KeywordKind::Break), KeywordKind::Break));
        entries.push((spelling(KeywordKind::Fn), KeywordKind::Fn));
        entries.push((spelling(KeywordKind::Extern), KeywordKind::Extern));
        entries.push((spelling(KeywordKind::Struct), KeywordKind::Struct));
        entries.push((spelling(KeywordKind::As), KeywordKind::As));
        entries.push((spelling(KeywordKind::InOut), KeywordKind::InOut));
        entries.push((spelling(KeywordKind::Impl), KeywordKind::Impl));
        entries.push((spelling(KeywordKind::Pub), KeywordKind::Pub));
        entries.push((spelling(KeywordKind::Trait), KeywordKind::Trait));
        entries.push((spelling(KeywordKind::Implements), KeywordKind::Implements));
        entries.push((spelling(KeywordKind::Implicit), KeywordKind::Implicit));
        entries.push((spelling(KeywordKind::Consume), KeywordKind::Consume));
        entries.push((spelling(KeywordKind::Loop), KeywordKind::Loop));
        let r = KeywordTable { entries };
        assert forall|k: KeywordKind| #[trigger] r.has_entry(k) by {
            match k {
                KeywordKind::Let => assert(r.entries@[0].1 == k),
                KeywordKind::Mut => assert(r.entries@[1].1 == k),
                KeywordKind::Return => assert(r.entries@[2].1 == k),
                KeywordKind::If => assert(r.entries@[3].1 == k),
                KeywordKind::Else => assert(r.entries@[4].1 == k),
                KeywordKind::For => assert(r.entries@[5].1 == k),
                KeywordKind::In => assert(r.entries@[6].1 == k),
                KeywordKind::Continue => assert(r.entries@[7].1 == k),
                KeywordKind::Break => assert(r.entries@[8].1 == k),
                KeywordKind::Fn => assert(r.entries@[9].1 == k),
                KeywordKind::Extern => assert(r.entries@[10].1 == k),
                KeywordKind::Struct => assert(r.entries@[11].1 == k),
                KeywordKind::As => assert(r.entries@[12].1 == k),
                KeywordKind::InOut => assert(r.entries@[13].1 == k),
                KeywordKind::Impl => assert(r.entries@[14].1 == k),
                KeywordKind::Pub => assert(r.entries@[15].1 == k),
                KeywordKind::Trait => assert(r.entries@[16].1 == k),
                KeywordKind::Implements => assert(r.entries@[17].1 == k),
                KeywordKind::Implicit => assert(r.entries@[18].1 == k),
                KeywordKind::Consume => assert(r.entries@[19].1 == k),
                KeywordKind::Loop => assert(r.entries@[20].1 == k),
            }
        }
        r
    }

    /// The keyword spelled exactly `w`, if any.
    pub fn lookup(&self, w: &[char]) -> (r: Option<KeywordKind>)
        requires
            self.wf(),
        ensures
            r == keyword_of(w@),
    {
        let mut i: usize = 0;
        while i < self.entries.len()
            invariant
                self.wf(),
                i <= self.entries@.len(),
                forall|j: int| 0 <= j < i ==> self.entries@[j].0@ != w@,
            decreases self.entries@.len() - i,
        {
            if same_chars(self.entries[i].0.as_slice(), w) {
                let k = self.entries[i].1;
                assert(self.entries@[i as int].0@ == keyword_spelling(k));
                proof {
                    let c = choose|c: KeywordKind| keyword_spelling(c) == w@;
                    lemma_spelling_injective(c, k);
                }
                return Some(k);
            }
            i = i + 1;
        }
        assert forall|k: KeywordKind| keyword_spelling(k) != w@ by {
            assert(self.has_entry(k));
            let j = choose|j: int| 0 <= j < self.entries@.len() && #[trigger] self.entries@[j].1 == k;
            assert(self.entries@[j].0@ == keyword_spelling(k));
        }
        None
    }
}

/// Whether a comment runs to the end of the line or is delimited.
#[derive(Debug, Copy, Clone, PartialEq, Eq, Structural, Hash)]
pub enum CommentKind {
    /// `// comment`
    Line,
    /// `/* comment */`; block comments nest, so `/* /* */` is unterminated.
    Block,
}

/// The radix a numeric literal is written in.
#[derive(Debug, Copy, Clone, PartialEq, Eq, Structural, Hash)]
pub enum Base {
    Binary,
    Octal,
    Hexadecimal,
    Decimal,
}

/// The kinds of literal.
#[derive(Debug, Copy, Clone, PartialEq, Eq, Structural, Hash)]
pub enum LiteralKind {
    Int(Base),
    Float(Base),
    Char,
    String,
}

/// The lexical category of a token.
#[derive(Debug, Copy, Clone, PartialEq, Eq, Structural, Hash)]
pub enum TokenKind {
    /// A comment; `doc` marks `///` and `/**` comments.
    Comment { kind: CommentKind, doc: bool },
    /// An identifier that is not a keyword.
    Ident,
    /// `let`, `if`, `return`, ...
    Keyword(KeywordKind),
    /// `12`, `0x1F`, `12.34`, `'c'`, `"text"`.
    Literal(LiteralKind),
    /// `;`
    Semicolon,
    /// `,`
    Comma,
    /// `.`
    Dot,
    /// `(`
    OpenParen,
    /// `)`
    CloseParen,
    /// `[`
    OpenBracket,
    /// `]`
    CloseBracket,
    /// `{`
    OpenBrace,
    /// `}`
    CloseBrace,
    /// `@`
    At,
    /// `#`
    Pound,
    /// `~`
    Tilde,
    /// `?`
    Question,
    /// `:`
    Colon,
    /// `$`
    Dollar,
    /// `=`
    Eq,
    /// `!`
    Bang,
    /// `<`
    Lt,
    /// `>`
    Gt,
    /// `+`
    Plus,
    /// `-`
    Minus,
    /// `&`
    And,
    /// `|`
    Or,
    /// `*`
    Star,
    /// `/`
    Slash,
    /// `^`
    Caret,
    /// `%`
    Percent,
}

/// The one-character token that `c` stands for, if any.
pub open spec fn punct_of(c: char) -> Option<TokenKind> {
    if c == ';' { Some(TokenKind::Semicolon) }
    else if c == ',' { Some(TokenKind::Comma) }
    else if c == '.' { Some(TokenKind::Dot) }
    else if c == '(' { Some(TokenKind::OpenParen) }
    else if c == ')' { Some(TokenKind::CloseParen) }
    else if c == '[' { Some(TokenKind::OpenBracket) }
    else if c == ']' { Some(TokenKind::CloseBracket) }
    else if c == '{' { Some(TokenKind::OpenBrace) }
    else if c == '}' { Some(TokenKind::CloseBrace) }
    else if c == '@' { Some(TokenKind::At) }
    else if c == '#' { Some(TokenKind::Pound) }
    else if c == '~' { Some(TokenKind::Tilde) }
    else if c == '?' { Some(TokenKind::Question) }
    else if c == ':' { Some(TokenKind::Colon) }
    else if c == '$' { Some(TokenKind::Dollar) }
    else if c == '=' { Some(TokenKind::Eq) }
    else if c == '!' { Some(TokenKind::Bang) }
    else if c == '<' { Some(TokenKind::Lt) }
    else if c == '>' { Some(TokenKind::Gt) }
    else if c == '+' { Some(TokenKind::Plus) }
    else if c == '-' { Some(TokenKind::Minus) }
    else if c == '&' { Some(TokenKind::And) }
    else if c == '|' { Some(TokenKind::Or) }
    else if c == '*' { Some(TokenKind::Star) }
    else if c == '/' { Some(TokenKind::Slash) }
    else if c == '^' { Some(TokenKind::Caret) }
    else if c == '%' { Some(TokenKind::Percent) }
    else { None }
}

/// The one-character token for `c`.
pub fn punct(c: char) -> (r: Option<TokenKind>)
    ensures
        r == punct_of(c),
{
    match c {
        ';' => Some(TokenKind::Semicolon),
        ',' => Some(TokenKind::Comma),
        '.' => Some(TokenKind::Dot),
        '(' => Some(TokenKind::OpenParen),
        ')' => Some(TokenKind::CloseParen),
        '[' => Some(TokenKind::OpenBracket),
        ']' => Some(TokenKind::CloseBracket),
        '{' => Some(TokenKind::OpenBrace),
        '}' => Some(TokenKind::CloseBrace),
        '@' => Some(TokenKind::At),
        '#' => Some(TokenKind::Pound),
        '~' => Some(TokenKind::Tilde),
        '?' => Some(TokenKind::Question),
        ':' => Some(TokenKind::Colon),
        '$' => Some(TokenKind::Dollar),
        '=' => Some(TokenKind::Eq),
        '!' => Some(TokenKind::Bang),
        '<' => Some(TokenKind::Lt),
        '>' => Some(TokenKind::Gt),
        '+' => Some(TokenKind::Plus),
        '-' => Some(TokenKind::Minus),
        '&' => Some(TokenKind::And),
        '|' => Some(TokenKind::Or),
        '*' => Some(TokenKind::Star),
        '/' => Some(TokenKind::Slash),
        '^' => Some(TokenKind::Caret),
        '%' => Some(TokenKind::Percent),
        _ => None,
    }
}

/// A classified piece of source text with its byte span.
#[derive(Debug)]
pub struct Token {
    /// The kind of token.
    pub kind: TokenKind,
    /// Where the token stands in the source.
    pub span: Span,
    /// The decoded text of identifiers, literals and comments.
    pub value: Option<String>,
}

impl Token {
    pub fn new(kind: TokenKind, span: Span, value: Option<String>) -> (r: Token)
        ensures
            r.kind == kind,
            r.span == span,
            r.value == value,
    {
        Token { kind, span, value }
    }

    /// Comments may be dropped by consumers without losing positions.
    pub fn skippable(&self) -> (r: bool)
        ensures
            r == (self.kind is Comment),
    {
        match self.kind {
            TokenKind::Comment { .. } => true,
            _ => false,
        }
    }
}

} // verus!
