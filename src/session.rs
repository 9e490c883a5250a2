//! The session: the one source buffer of a compilation and its line table.
use vstd::prelude::*;
use vstd::utf8::encode_utf8;
use crate::scan::{CharClass, find_run_end, run_end, lemma_run_end_bounds};
use crate::source::{byte_pos, chars_of, lemma_byte_pos_mono, lemma_encode_concat};

verus! {

/// The line `t` with its trailing carriage return removed when a newline
/// ends the line (`ended`); a last line without a newline keeps it.
pub open spec fn strip_cr(t: Seq<char>, ended: bool) -> Seq<char> {
    if ended && t.len() > 0 && t.last() == '\r' {
        t.drop_last()
    } else {
        t
    }
}

/// For each line of `s` (split at `\n`, a `\r` just before a `\n`
/// dropped, no empty line after a final `\n`), its length in bytes plus one.
pub open spec fn line_table(s: Seq<char>) -> Seq<int>
    decreases s.len(),
{
    if s.len() == 0 {
        Seq::empty()
    } else {
        let k = run_end(s, 0, CharClass::NotNewline);
        let rest = if k < s.len() { s.subrange(k + 1, s.len() as int) } else { Seq::empty() };
        if 0 <= k <= s.len() && rest.len() < s.len() {
            seq![encode_utf8(strip_cr(s.subrange(0, k), k < s.len())).len() as int + 1] + line_table(rest)
        } else {
            Seq::empty()
        }
    }
}

/// The owner of one source buffer and of what is derived from it.
pub struct Session {
    /// The path the source was loaded from, as given.
    pub path: String,
    /// The source text.
    pub source: String,
    /// For each line, its length in bytes plus one.
    pub line_beginnings: Vec<usize>,
}

impl Session {
    /// A session for `path` whose source is not loaded yet.
    pub fn new(path: String) -> (r: Session)
        ensures
            r.path == path,
            r.source@ == Seq::<char>::empty(),
            r.line_beginnings@ == Seq::<usize>::empty(),
    {
        Session { path, source: String::new(), line_beginnings: Vec::new() }
    }

    /// Takes `source` as the session's buffer and derives its line table.
    pub fn load(&mut self, source: String)
        requires
            encode_utf8(source@).len() < usize::MAX,
        ensures
            final(self).path == old(self).path,
            final(self).source == source,
            final(self).line_beginnings@.len() == line_table(source@).len(),
            forall|i: int|
                0 <= i < line_table(source@).len() ==> final(self).line_beginnings@[i] as int
                    == #[trigger] line_table(source@)[i],
    {
        let cs = chars_of(source.as_str());
        let mut table: Vec<usize> = Vec::new();
        let mut j: usize = 0;
        assert(cs@.subrange(0, cs@.len() as int) =~= cs@);
        assert(table@.map_values(|v: usize| v as int) + line_table(cs@) =~= line_table(cs@));
        while j < cs.len()
            invariant
                cs@ == source@,
                j <= cs@.len(),
                encode_utf8(cs@).len() < usize::MAX,
                line_table(cs@) =~= table@.map_values(|v: usize| v as int) + line_table(
                    cs@.subrange(j as int, cs@.len() as int),
                ),
            decreases cs@.len() - j,
        {
            let ghost t = cs@.subrange(j as int, cs@.len() as int);
            let k = find_run_end(cs.as_slice(), j, CharClass::NotNewline);
            proof {
                lemma_run_end_shift(cs@, j as int);
            }
            let mut e = k;
            if k < cs.len() && e > j && cs[e - 1] == '\r' {
                e = e - 1;
            }
            let n = bytes_between(cs.as_slice(), j, e);
            proof {
                lemma_byte_pos_mono(cs@, j as int, e as int);
                lemma_byte_pos_mono(cs@, e as int, cs@.len() as int);
                let line = cs@.subrange(j as int, k as int);
                assert(t.subrange(0, k - j) =~= line);
                assert(strip_cr(line, k < cs@.len()) =~= cs@.subrange(j as int, e as int));
                if k < cs.len() {
                    assert(t.subrange(k - j + 1, t.len() as int) =~= cs@.subrange(k + 1, cs@.len() as int));
                }
            }
            table.push(n + 1);
            let ghost before = table@.drop_last();
            if k < cs.len() {
                j = k + 1;
            } else {
                j = k;
                assert(cs@.subrange(j as int, cs@.len() as int) =~= Seq::<char>::empty());
            }
            proof {
                assert(table@.map_values(|v: usize| v as int) =~= before.map_values(|v: usize| v as int).push(n + 1));
            }
        }
        assert(cs@.subrange(j as int, cs@.len() as int) =~= Seq::<char>::empty());
        self.source = source;
        self.line_beginnings = table;
    }
}

/// Scanning a line from `j` ends where scanning the rest of the text from
/// its start would.
proof fn lemma_run_end_shift(s: Seq<char>, j: int)
    requires
        0 <= j <= s.len(),
    ensures
        run_end(s.subrange(j, s.len() as int), 0, CharClass::NotNewline) == run_end(s, j, CharClass::NotNewline) - j,
        j <= run_end(s, j, CharClass::NotNewline) <= s.len(),
    decreases s.len() - j,
{
    lemma_run_end_shift_from(s, j, j);
    lemma_run_end_bounds(s, j, CharClass::NotNewline);
}

proof fn lemma_run_end_shift_from(s: Seq<char>, j: int, i: int)
    requires
        0 <= j <= i <= s.len(),
    ensures
        run_end(s.subrange(j, s.len() as int), i - j, CharClass::NotNewline) == run_end(s, i, CharClass::NotNewline) - j,
    decreases s.len() - i,
{
    if i < s.len() {
        lemma_run_end_shift_from(s, j, i + 1);
    }
}

/// The number of bytes UTF-8 takes for the characters `[a, b)` of `s`.
fn bytes_between(s: &[char], a: usize, b: usize) -> (r: usize)
    requires
        a <= b <= s@.len(),
        encode_utf8(s@).len() < usize::MAX,
    ensures
        r == encode_utf8(s@.subrange(a as int, b as int)).len(),
        r <= encode_utf8(s@).len(),
{
    let mut n: usize = 0;
    let mut j = a;
    while j < b
        invariant
            a <= j <= b <= s@.len(),
            encode_utf8(s@).len() < usize::MAX,
            n == byte_pos(s@, j as int) - byte_pos(s@, a as int),
        decreases b - j,
    {
        proof {
            crate::source::lemma_byte_pos_step(s@, j as int);
            lemma_byte_pos_mono(s@, a as int, j as int);
            lemma_byte_pos_mono(s@, j + 1, s@.len() as int);
        }
        n = n + crate::source::utf8_width(s[j]);
        j = j + 1;
    }
    proof {
        assert(s@.subrange(0, b as int) =~= s@.subrange(0, a as int) + s@.subrange(a as int, b as int));
        lemma_encode_concat(s@.subrange(0, a as int), s@.subrange(a as int, b as int));
        lemma_byte_pos_mono(s@, a as int, b as int);
        lemma_byte_pos_mono(s@, b as int, s@.len() as int);
    }
    n
}

} // verus!
