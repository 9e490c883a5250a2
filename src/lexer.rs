//! The lexer: pulls tokens one at a time from a source buffer, collecting
//! lexical errors on the way and resuming after each.
use vstd::prelude::*;
use vstd::utf8::encode_utf8;
use crate::scan::{
    CharClass, Lexeme, LexErrorKind, in_class, is_space, lemma_run_end_class, lemma_scan_advances,
    opt_chars, scan, scan_at,
};
use crate::source::{byte_pos, chars_of, char_width, utf8_width, lemma_byte_pos_mono, lemma_byte_pos_step};
use crate::span::Span;
use crate::tokens::{KeywordTable, Token, TokenKind};

verus! {

/// A malformed region of the source.
#[derive(Debug, Copy, Clone, PartialEq, Eq, Structural, Hash)]
pub struct LexError {
    pub kind: LexErrorKind,
    pub span: Span,
}

/// The byte span of the characters `[a, b)` of `s`.
pub open spec fn span_of(s: Seq<char>, a: int, b: int) -> Span {
    Span { low: byte_pos(s, a) as usize, offset: (byte_pos(s, b) - byte_pos(s, a)) as usize }
}

/// A token found by scanning: its kind, its first and past-the-end
/// character positions, and its decoded text.
pub type Found = (TokenKind, int, int, Option<Seq<char>>);

/// What one call of `next_token` from position `i` does: the errors it
/// meets, the token it returns, and the position it stops at.
pub open spec fn next_from(s: Seq<char>, i: int) -> (Seq<LexError>, Option<Found>, int)
    decreases s.len() - i,
{
    if i < 0 || i >= s.len() {
        (Seq::empty(), None, i)
    } else {
        let (lx, e, v) = scan(s, i);
        if e <= i || e > s.len() {
            (Seq::empty(), None, i)
        } else {
            match lx {
                Lexeme::Space => next_from(s, e),
                Lexeme::Bad(k) => {
                    let (errs, t, p) = next_from(s, e);
                    (seq![LexError { kind: k, span: span_of(s, i, e) }] + errs, t, p)
                },
                Lexeme::Tok(k) => (Seq::empty(), Some((k, i, e, v)), e),
            }
        }
    }
}

/// The decoded text of a token, as a sequence.
pub open spec fn opt_text(o: Option<String>) -> Option<Seq<char>> {
    match o {
        Some(t) => Some(t@),
        None => None,
    }
}

/// Relies on `FromIterator<char>` for `String`: the string holds the
/// characters in order.
#[verifier::external_body]
fn string_from_chars(cs: &[char]) -> (r: String)
    ensures
        r@ == cs@,
{
    cs.iter().collect()
}

/// `r` is the token that scanning `s` found as `t`.
pub open spec fn token_is(r: Option<Token>, t: Option<Found>, s: Seq<char>) -> bool {
    match t {
        None => r is None,
        Some(f) => match r {
            Some(tok) => tok.kind == f.0 && tok.span == span_of(s, f.1, f.2) && opt_text(tok.value)
                == f.3,
            None => false,
        },
    }
}

/// A scanner over one source buffer.
pub struct Lexer {
    chars: Vec<char>,
    keywords: KeywordTable,
    pos: usize,
    offset: usize,
    errors: Vec<LexError>,
}

impl Lexer {
    /// The characters of the source buffer.
    pub closed spec fn source(&self) -> Seq<char> {
        self.chars@
    }

    /// The character position of the cursor.
    pub closed spec fn position(&self) -> int {
        self.pos as int
    }

    /// The byte offset of the cursor.
    pub closed spec fn byte_offset(&self) -> int {
        self.offset as int
    }

    /// The lexical errors met so far, in source order.
    pub closed spec fn errors_seen(&self) -> Seq<LexError> {
        self.errors@
    }

    pub closed spec fn wf(&self) -> bool {
        &&& self.pos <= self.chars@.len()
        &&& self.offset == byte_pos(self.chars@, self.pos as int)
        &&& encode_utf8(self.chars@).len() <= usize::MAX
        &&& self.keywords.wf()
    }

    /// A lexer at the start of `input`.
    pub fn new(input: &str) -> (r: Lexer)
        ensures
            r.wf(),
            r.source() == input@,
            r.position() == 0,
            r.byte_offset() == 0,
            r.errors_seen() == Seq::<LexError>::empty(),
    {
        // The byte length of `input` is a `usize`: this bounds every offset
        // the lexer computes.
        let bytes = input.as_bytes();
        let _n = bytes.len();
        let chars = chars_of(input);
        proof {
            lemma_byte_pos_mono(chars@, 0, 0);
        }
        Lexer { chars, keywords: KeywordTable::new(), pos: 0, offset: 0, errors: Vec::new() }
    }

    /// The byte offset of the cursor.
    pub fn offset(&self) -> (r: usize)
        ensures
            r == self.byte_offset(),
    {
        self.offset
    }

    /// The lexical errors met so far.
    pub fn errors(&self) -> (r: &Vec<LexError>)
        ensures
            r@ == self.errors_seen(),
    {
        &self.errors
    }

    /// Moves the cursor over `[self.pos, to)`, keeping the byte offset in step.
    fn move_to(&mut self, to: usize)
        requires
            old(self).wf(),
            old(self).pos <= to <= old(self).chars@.len(),
        ensures
            final(self).wf(),
            final(self).pos == to,
            final(self).chars == old(self).chars,
            final(self).errors == old(self).errors,
    {
        while self.pos < to
            invariant
                self.wf(),
                self.pos <= to <= self.chars@.len(),
                self.chars == old(self).chars,
                self.errors == old(self).errors,
            decreases to - self.pos,
        {
            proof {
                lemma_byte_pos_step(self.chars@, self.pos as int);
                lemma_byte_pos_mono(self.chars@, self.pos + 1, self.chars@.len() as int);
            }
            self.offset = self.offset + utf8_width(self.chars[self.pos]);
            self.pos = self.pos + 1;
        }
    }

    /// Returns the character under the cursor and moves past it.
    pub fn advance(&mut self) -> (r: Option<char>)
        requires
            old(self).wf(),
        ensures
            final(self).wf(),
            final(self).source() == old(self).source(),
            final(self).errors_seen() == old(self).errors_seen(),
            old(self).position() < old(self).source().len() ==> {
                &&& r == Some(old(self).source()[old(self).position()])
                &&& final(self).position() == old(self).position() + 1
                &&& final(self).byte_offset() == old(self).byte_offset() + char_width(
                    old(self).source()[old(self).position()],
                )
            },
            old(self).position() >= old(self).source().len() ==> {
                &&& r is None
                &&& final(self).position() == old(self).position()
                &&& final(self).byte_offset() == old(self).byte_offset()
            },
    {
        if self.pos < self.chars.len() {
            let c = self.chars[self.pos];
            proof {
                lemma_byte_pos_step(self.chars@, self.pos as int);
            }
            let to = self.pos + 1;
            self.move_to(to);
            Some(c)
        } else {
            None
        }
    }

    /// The next token, or `None` at the end of the input. Whitespace is
    /// skipped; each malformed region met first is recorded as an error and
    /// passed over.
    pub fn next_token(&mut self) -> (r: Option<Token>)
        requires
            old(self).wf(),
        ensures
            final(self).wf(),
            final(self).source() == old(self).source(),
            ({
                let (errs, t, p) = next_from(old(self).source(), old(self).position());
                &&& final(self).position() == p
                &&& final(self).errors_seen() == old(self).errors_seen() + errs
                &&& token_is(r, t, old(self).source())
            }),
            r is None ==> final(self).position() == final(self).source().len(),
            r is Some ==> old(self).position() < final(self).position(),
    {
        let ghost s = self.chars@;
        let ghost start = self.pos as int;
        while self.pos < self.chars.len()
            invariant
                self.wf(),
                self.chars@ == s,
                s == old(self).chars@,
                start == old(self).pos,
                start <= self.pos,
                ({
                    let (errs, t, p) = next_from(s, start);
                    let (errs2, t2, p2) = next_from(s, self.pos as int);
                    &&& t == t2
                    &&& p == p2
                    &&& errs == self.errors@.subrange(
                        old(self).errors@.len() as int,
                        self.errors@.len() as int,
                    ) + errs2
                }),
                old(self).errors@.len() <= self.errors@.len(),
                self.errors@.subrange(0, old(self).errors@.len() as int) == old(self).errors@,
            decreases self.chars@.len() - self.pos,
        {
            let i = self.pos;
            let i_off = self.offset;
            let (lx, e, v) = scan_at(self.chars.as_slice(), &self.keywords, i);
            proof {
                lemma_byte_pos_mono(s, i as int, e as int);
            }
            let ghost errs_before = self.errors@;
            self.move_to(e);
            let span = Span::new(i_off, self.offset - i_off);
            match lx {
                Lexeme::Space => {},
                Lexeme::Bad(k) => {
                    self.errors.push(LexError { kind: k, span });
                    proof {
                        let n0 = old(self).errors@.len() as int;
                        assert(self.errors@.subrange(n0, self.errors@.len() as int) =~= errs_before.subrange(
                            n0,
                            errs_before.len() as int,
                        ) + seq![LexError { kind: k, span }]);
                        assert(self.errors@.subrange(0, n0) =~= errs_before.subrange(0, n0));
                        let (errs2, t2, p2) = next_from(s, e as int);
                        assert(errs_before.subrange(n0, errs_before.len() as int) + (seq![LexError { kind: k, span }] + errs2)
                            =~= self.errors@.subrange(n0, self.errors@.len() as int) + errs2);
                    }
                },
                Lexeme::Tok(k) => {
                    let value = match v {
                        Some(cs) => Some(string_from_chars(cs.as_slice())),
                        None => None,
                    };
                    let tok = Token::new(k, span, value);
                    proof {
                        let n0 = old(self).errors@.len() as int;
                        assert(self.errors@.subrange(n0, self.errors@.len() as int) + Seq::<LexError>::empty()
                            =~= self.errors@.subrange(n0, self.errors@.len() as int));
                        assert(self.errors@ =~= old(self).errors@ + self.errors@.subrange(n0, self.errors@.len() as int));
                        assert(opt_text(tok.value) == opt_chars(v));
                    }
                    return Some(tok);
                },
            }
        }
        proof {
            let n0 = old(self).errors@.len() as int;
            assert(self.errors@.subrange(n0, self.errors@.len() as int) + Seq::<LexError>::empty()
                =~= self.errors@.subrange(n0, self.errors@.len() as int));
            assert(self.errors@ =~= old(self).errors@ + self.errors@.subrange(n0, self.errors@.len() as int));
        }
        None
    }
}

/// The lexemes that scanning from position `i` to the end meets, each with
/// its first and past-the-end character positions.
pub open spec fn lexemes(s: Seq<char>, i: int) -> Seq<(Lexeme, int, int)>
    decreases s.len() - i,
{
    if i < 0 || i >= s.len() {
        Seq::empty()
    } else {
        let (lx, e, v) = scan(s, i);
        if e <= i || e > s.len() {
            Seq::empty()
        } else {
            seq![(lx, i, e)] + lexemes(s, e)
        }
    }
}

proof fn lemma_lexemes_from(s: Seq<char>, i: int)
    requires
        0 <= i <= s.len(),
    ensures
        ({
            let p = lexemes(s, i);
            &&& (p.len() == 0) == (i == s.len())
            &&& p.len() > 0 ==> p[0].1 == i && p.last().2 == s.len()
            &&& forall|k: int| 0 <= k < p.len() ==> i <= (#[trigger] p[k]).1 < p[k].2 <= s.len()
            &&& forall|k: int| 0 <= k < p.len() - 1 ==> (#[trigger] p[k]).2 == p[k + 1].1
            &&& forall|k: int, j: int|
                0 <= k < p.len() && (#[trigger] p[k]).0 == Lexeme::Space && p[k].1 <= j < p[k].2
                    ==> is_space(#[trigger] s[j])
        }),
    decreases s.len() - i,
{
    if i < s.len() {
        lemma_scan_advances(s, i);
        let (lx, e, v) = scan(s, i);
        lemma_lexemes_from(s, e);
        lemma_run_end_class(s, i, CharClass::Space);
        let p = lexemes(s, i);
        let q = lexemes(s, e);
        assert(p == seq![(lx, i, e)] + q);
        assert forall|k: int| 0 <= k < p.len() implies i <= (#[trigger] p[k]).1 < p[k].2 <= s.len() by {
            if k > 0 {
                assert(p[k] == q[k - 1]);
            }
        }
        assert forall|k: int| 0 <= k < p.len() - 1 implies (#[trigger] p[k]).2 == p[k + 1].1 by {
            if k > 0 {
                assert(p[k] == q[k - 1]);
            }
            assert(p[k + 1] == q[k]);
        }
        assert forall|k: int, j: int|
            0 <= k < p.len() && (#[trigger] p[k]).0 == Lexeme::Space && p[k].1 <= j < p[k].2
                implies is_space(#[trigger] s[j]) by {
            if k > 0 {
                assert(p[k] == q[k - 1]);
            } else {
                assert(in_class(CharClass::Space, s[j]));
            }
        }
        if q.len() > 0 {
            assert(p.last() == q.last());
        }
    }
}

/// Span coverage: the lexemes of a text (tokens, whitespace runs and
/// malformed regions) tile its UTF-8 bytes in order, with no gap or
/// overlap, from byte 0 to the end; none is empty, and whitespace lexemes
/// hold whitespace only.
pub proof fn lemma_lexemes_tile(s: Seq<char>)
    requires
        encode_utf8(s).len() <= usize::MAX,
    ensures
        ({
            let p = lexemes(s, 0);
            &&& (p.len() == 0) == (s.len() == 0)
            &&& p.len() > 0 ==> span_of(s, p[0].1, p[0].2).low == 0
            &&& p.len() > 0 ==> span_of(s, p.last().1, p.last().2).end() == encode_utf8(s).len()
            &&& forall|k: int|
                0 <= k < p.len() - 1 ==> span_of(s, (#[trigger] p[k]).1, p[k].2).end() == span_of(
                    s,
                    p[k + 1].1,
                    p[k + 1].2,
                ).low
            &&& forall|k: int| 0 <= k < p.len() ==> !span_of(s, (#[trigger] p[k]).1, p[k].2).is_empty_spec()
            &&& forall|k: int, j: int|
                0 <= k < p.len() && (#[trigger] p[k]).0 == Lexeme::Space && p[k].1 <= j < p[k].2
                    ==> is_space(#[trigger] s[j])
        }),
{
    lemma_lexemes_from(s, 0);
    let p = lexemes(s, 0);
    lemma_byte_pos_mono(s, 0, 0);
    assert forall|k: int| 0 <= k < p.len() implies {
        let sp = span_of(s, (#[trigger] p[k]).1, p[k].2);
        &&& sp.low == byte_pos(s, p[k].1)
        &&& sp.end() == byte_pos(s, p[k].2)
        &&& !sp.is_empty_spec()
    } by {
        lemma_byte_pos_mono(s, p[k].1, p[k].2);
        lemma_byte_pos_mono(s, p[k].2, s.len() as int);
        lemma_byte_pos_step(s, p[k].1);
        lemma_byte_pos_mono(s, p[k].1 + 1, p[k].2);
    }
    assert(s.subrange(0, s.len() as int) =~= s);
    assert forall|k: int| 0 <= k < p.len() - 1 implies span_of(s, (#[trigger] p[k]).1, p[k].2).end() == span_of(
        s,
        p[k + 1].1,
        p[k + 1].2,
    ).low by {
        assert(p[k].2 == p[k + 1].1);
        let _a = span_of(s, p[k + 1].1, p[k + 1].2);
    }
}

/// One call of `next_token` from position `i` returns the first token
/// lexeme met from there, skipping only whitespace and malformed regions,
/// and leaves the cursor where the remaining lexemes begin; with no token
/// lexeme left it returns none and the cursor reaches the end.
pub proof fn lemma_next_from_lexemes(s: Seq<char>, i: int)
    requires
        0 <= i <= s.len(),
    ensures
        ({
            let (errs, t, p) = next_from(s, i);
            let q = lexemes(s, i);
            match t {
                None => p == s.len() && forall|k: int| 0 <= k < q.len() ==> !((#[trigger] q[k]).0 is Tok),
                Some(f) => exists|m: int|
                    0 <= m < q.len() && q[m] == (Lexeme::Tok(f.0), f.1, f.2) && (forall|k: int|
                        0 <= k < m ==> !((#[trigger] q[k]).0 is Tok)) && p == f.2 && lexemes(s, p)
                        == q.subrange(m + 1, q.len() as int),
            }
        }),
    decreases s.len() - i,
{
    if i < s.len() {
        lemma_scan_advances(s, i);
        let (lx, e, v) = scan(s, i);
        let q = lexemes(s, i);
        let r = lexemes(s, e);
        assert(q == seq![(lx, i, e)] + r);
        lemma_next_from_lexemes(s, e);
        match lx {
            Lexeme::Tok(k) => {
                assert(r =~= q.subrange(1, q.len() as int));
                assert(q[0] == (Lexeme::Tok(k), i, e));
            },
            _ => {
                let (errs, t, p) = next_from(s, e);
                match t {
                    None => {
                        assert forall|k: int| 0 <= k < q.len() implies !((#[trigger] q[k]).0 is Tok) by {
                            if k > 0 {
                                assert(q[k] == r[k - 1]);
                            }
                        }
                    },
                    Some(f) => {
                        let m = choose|m: int|
                            0 <= m < r.len() && r[m] == (Lexeme::Tok(f.0), f.1, f.2) && (forall|k: int|
                                0 <= k < m ==> !((#[trigger] r[k]).0 is Tok)) && p == f.2 && lexemes(s, p)
                                == r.subrange(m + 1, r.len() as int);
                        assert(q[m + 1] == r[m]);
                        assert(r.subrange(m + 1, r.len() as int) =~= q.subrange(m + 2, q.len() as int));
                        assert forall|k: int| 0 <= k < m + 1 implies !((#[trigger] q[k]).0 is Tok) by {
                            if k > 0 {
                                assert(q[k] == r[k - 1]);
                            }
                        }
                    },
                }
            },
        }
    }
}

/// The tokens that successive calls of `next_token` from position `i`
/// return, up to the first `None`.
pub open spec fn token_run(s: Seq<char>, i: int) -> Seq<Found>
    decreases s.len() - i,
{
    if i < 0 || i >= s.len() {
        Seq::empty()
    } else {
        let (errs, t, p) = next_from(s, i);
        match t {
            None => Seq::empty(),
            Some(f) => if p <= i || p > s.len() {
                Seq::empty()
            } else {
                seq![f] + token_run(s, p)
            },
        }
    }
}

/// The lexical errors that those same calls record.
pub open spec fn run_errors(s: Seq<char>, i: int) -> Seq<LexError>
    decreases s.len() - i,
{
    if i < 0 || i >= s.len() {
        Seq::empty()
    } else {
        let (errs, t, p) = next_from(s, i);
        match t {
            None => errs,
            Some(f) => if p <= i || p > s.len() {
                errs
            } else {
                errs + run_errors(s, p)
            },
        }
    }
}

/// Position `j` lies inside one of the tokens `t`.
pub open spec fn covered(t: Seq<Found>, j: int) -> bool {
    exists|k: int| 0 <= k < t.len() && (#[trigger] t[k]).1 <= j < t[k].2
}

/// A call of `next_token` that meets no error skips only whitespace.
proof fn lemma_next_from_gap(s: Seq<char>, i: int)
    requires
        0 <= i <= s.len(),
        next_from(s, i).0.len() == 0,
    ensures
        ({
            let (errs, t, p) = next_from(s, i);
            match t {
                None => p == s.len() && forall|j: int| i <= j < s.len() ==> is_space(#[trigger] s[j]),
                Some(f) => i <= f.1 < f.2 && f.2 == p <= s.len() && forall|j: int|
                    i <= j < f.1 ==> is_space(#[trigger] s[j]),
            }
        }),
    decreases s.len() - i,
{
    if i < s.len() {
        lemma_scan_advances(s, i);
        lemma_run_end_class(s, i, CharClass::Space);
        let (lx, e, v) = scan(s, i);
        match lx {
            Lexeme::Space => {
                lemma_next_from_gap(s, e);
                assert forall|j: int| i <= j < e implies is_space(#[trigger] s[j]) by {
                    assert(in_class(CharClass::Space, s[j]));
                }
            },
            Lexeme::Bad(k) => {
                let (errs2, t2, p2) = next_from(s, e);
                assert((seq![LexError { kind: k, span: span_of(s, i, e) }] + errs2).len() > 0);
            },
            Lexeme::Tok(k) => {},
        }
    }
}

proof fn lemma_token_run_from(s: Seq<char>, i: int)
    requires
        0 <= i <= s.len(),
        run_errors(s, i).len() == 0,
    ensures
        ({
            let t = token_run(s, i);
            &&& forall|k: int| 0 <= k < t.len() ==> i <= (#[trigger] t[k]).1 < t[k].2 <= s.len()
            &&& forall|k: int| 0 <= k < t.len() - 1 ==> (#[trigger] t[k]).2 <= t[k + 1].1
            &&& forall|j: int| i <= j < s.len() ==> is_space(#[trigger] s[j]) || covered(t, j)
        }),
    decreases s.len() - i,
{
    if i < s.len() {
        let (errs, t0, p) = next_from(s, i);
        match t0 {
            None => {
                lemma_next_from_gap(s, i);
            },
            Some(f) => {
                lemma_next_from_gap(s, i);
                let t = token_run(s, i);
                let r = token_run(s, p);
                lemma_token_run_from(s, p);
                assert(t == seq![f] + r);
                assert forall|k: int| 0 <= k < t.len() implies i <= (#[trigger] t[k]).1 < t[k].2 <= s.len() by {
                    if k > 0 {
                        assert(t[k] == r[k - 1]);
                    }
                }
                assert forall|k: int| 0 <= k < t.len() - 1 implies (#[trigger] t[k]).2 <= t[k + 1].1 by {
                    if k > 0 {
                        assert(t[k] == r[k - 1]);
                    }
                    assert(t[k + 1] == r[k]);
                }
                assert forall|j: int| i <= j < s.len() implies is_space(#[trigger] s[j]) || covered(t, j) by {
                    if f.1 <= j < f.2 {
                        assert(t[0] == f);
                    } else if j >= p && !is_space(s[j]) {
                        let k = choose|k: int| 0 <= k < r.len() && (#[trigger] r[k]).1 <= j < r[k].2;
                        assert(t[k + 1] == r[k]);
                    }
                }
            },
        }
    }
}

/// Span coverage over a whole run of `next_token` calls on a text that
/// yields no lexical error: the returned tokens are non-empty, come in
/// source order without overlap, stay within the text's bytes, and every
/// character outside all of them is whitespace.
pub proof fn lemma_token_run_tiles(s: Seq<char>)
    requires
        encode_utf8(s).len() <= usize::MAX,
        run_errors(s, 0).len() == 0,
    ensures
        ({
            let t = token_run(s, 0);
            &&& forall|k: int|
                0 <= k < t.len() ==> !span_of(s, (#[trigger] t[k]).1, t[k].2).is_empty_spec()
                    && span_of(s, t[k].1, t[k].2).end() <= encode_utf8(s).len()
            &&& forall|k: int|
                0 <= k < t.len() - 1 ==> span_of(s, (#[trigger] t[k]).1, t[k].2).end() <= span_of(
                    s,
                    t[k + 1].1,
                    t[k + 1].2,
                ).low
            &&& forall|j: int| 0 <= j < s.len() ==> is_space(#[trigger] s[j]) || covered(t, j)
        }),
{
    lemma_token_run_from(s, 0);
    let t = token_run(s, 0);
    assert forall|k: int| 0 <= k < t.len() implies {
        let sp = span_of(s, (#[trigger] t[k]).1, t[k].2);
        &&& sp.low == byte_pos(s, t[k].1)
        &&& sp.end() == byte_pos(s, t[k].2)
        &&& !sp.is_empty_spec()
        &&& sp.end() <= encode_utf8(s).len()
    } by {
        lemma_byte_pos_mono(s, t[k].1, t[k].2);
        lemma_byte_pos_mono(s, t[k].2, s.len() as int);
        lemma_byte_pos_step(s, t[k].1);
        lemma_byte_pos_mono(s, t[k].1 + 1, t[k].2);
    }
    assert forall|k: int| 0 <= k < t.len() - 1 implies span_of(s, (#[trigger] t[k]).1, t[k].2).end() <= span_of(
        s,
        t[k + 1].1,
        t[k + 1].2,
    ).low by {
        lemma_byte_pos_mono(s, t[k].2, t[k + 1].1);
        let _a = span_of(s, t[k + 1].1, t[k + 1].2);
    }
}

} // verus!
