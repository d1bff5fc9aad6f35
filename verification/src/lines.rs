//! Line lookup in status-record text: split text on newlines and return the
//! first line that, once trimmed, starts with a given label.

use vstd::prelude::*;
use vstd::string::StrSliceExecFns;

verus! {

/// `c` is a whitespace character (the set `str::trim` removes).
pub open spec fn is_blank(c: char) -> bool {
    c == '\t' || c == '\n' || c == '\u{b}' || c == '\u{c}' || c == '\r' || c == ' ' || c
        == '\u{85}' || c == '\u{a0}' || c == '\u{1680}' || ('\u{2000}' <= c && c <= '\u{200a}') || c
        == '\u{2028}' || c == '\u{2029}' || c == '\u{202f}' || c == '\u{205f}' || c == '\u{3000}'
}

/// Runtime test for `is_blank`.
pub fn is_blank_exec(c: char) -> (b: bool)
    ensures
        b == is_blank(c),
{
    c == '\t' || c == '\n' || c == '\u{b}' || c == '\u{c}' || c == '\r' || c == ' ' || c
        == '\u{85}' || c == '\u{a0}' || c == '\u{1680}' || ('\u{2000}' <= c && c <= '\u{200a}') || c
        == '\u{2028}' || c == '\u{2029}' || c == '\u{202f}' || c == '\u{205f}' || c == '\u{3000}'
}

/// `l` with its leading whitespace removed.
pub open spec fn trim_start_of(l: Seq<char>) -> Seq<char>
    decreases l.len(),
{
    if l.len() > 0 && is_blank(l[0]) {
        trim_start_of(l.skip(1))
    } else {
        l
    }
}

/// `l` with its trailing whitespace removed.
pub open spec fn trim_end_of(l: Seq<char>) -> Seq<char>
    decreases l.len(),
{
    if l.len() > 0 && is_blank(l.last()) {
        trim_end_of(l.drop_last())
    } else {
        l
    }
}

/// `l` with whitespace removed at both ends, as `str::trim` leaves it.
pub open spec fn trim_of(l: Seq<char>) -> Seq<char> {
    trim_end_of(trim_start_of(l))
}

/// `l` without a trailing carriage return: what is left of a
/// `"\r\n"`-terminated line once the newline is gone. Applied only to lines
/// a newline terminates; a final, unterminated line keeps a bare `'\r'`.
pub open spec fn strip_cr(l: Seq<char>) -> Seq<char> {
    if l.len() > 0 && l.last() == '\r' {
        l.drop_last()
    } else {
        l
    }
}

/// The line matches when its trimmed text starts with the label `m`.
pub open spec fn line_matches(l: Seq<char>, m: Seq<char>) -> bool {
    m.is_prefix_of(trim_of(l))
}

/// Distance from the start of `s` to its first newline, or `s.len()` when
/// `s` holds none.
pub open spec fn eol_at(s: Seq<char>) -> nat
    decreases s.len(),
{
    if s.len() == 0 {
        0
    } else if s[0] == '\n' {
        0
    } else {
        1 + eol_at(s.skip(1))
    }
}

/// The first line of `s` that matches label `m`, reading `s` as
/// newline-separated lines: a line loses its `"\n"` or `"\r\n"` terminator,
/// and the final line, which no newline terminates, is kept whole.
pub open spec fn find_line(s: Seq<char>, m: Seq<char>) -> Option<Seq<char>>
    decreases s.len(),
{
    if s.len() == 0 {
        None
    } else {
        let k = eol_at(s) as int;
        let line = if k < s.len() {
            strip_cr(s.take(k))
        } else {
            s.take(k)
        };
        if line_matches(line, m) {
            Some(line)
        } else if k >= s.len() {
            None
        } else {
            find_line(s.skip(k + 1), m)
        }
    }
}

proof fn lemma_eol_at_is(s: Seq<char>, k: int)
    requires
        0 <= k <= s.len(),
        forall|m: int| 0 <= m < k ==> s[m] != '\n',
        k == s.len() || s[k] == '\n',
    ensures
        eol_at(s) == k,
    decreases k,
{
    if k == 0 {
    } else {
        assert(forall|m: int| 0 <= m < k - 1 ==> s.skip(1)[m] != '\n');
        lemma_eol_at_is(s.skip(1), k - 1);
    }
}

proof fn lemma_trim_start_skip(l: Seq<char>, a: int)
    requires
        0 <= a <= l.len(),
        forall|m: int| 0 <= m < a ==> is_blank(l[m]),
        a == l.len() || !is_blank(l[a]),
    ensures
        trim_start_of(l) == l.skip(a),
    decreases a,
{
    if a == 0 {
        assert(l.skip(0) =~= l);
    } else {
        assert(forall|m: int| 0 <= m < a - 1 ==> is_blank(l.skip(1)[m]));
        lemma_trim_start_skip(l.skip(1), a - 1);
        assert(l.skip(1).skip(a - 1) =~= l.skip(a));
    }
}

proof fn lemma_trim_end_take(l: Seq<char>, b: int)
    requires
        0 <= b <= l.len(),
        forall|m: int| b <= m < l.len() ==> is_blank(l[m]),
        b == 0 || !is_blank(l[b - 1]),
    ensures
        trim_end_of(l) == l.take(b),
    decreases l.len(),
{
    if b == l.len() {
        assert(l.take(b) =~= l);
        if l.len() > 0 {
            assert(!is_blank(l.last()));
        }
    } else {
        assert(forall|m: int| b <= m < l.drop_last().len() ==> is_blank(l.drop_last()[m]));
        lemma_trim_end_take(l.drop_last(), b);
        assert(l.drop_last().take(b) =~= l.take(b));
    }
}

/// Whether the trimmed line starts with the label.
#[verifier::loop_isolation(false)]
fn line_matches_exec(line: &str, matcher: &str) -> (b: bool)
    ensures
        b == line_matches(line@, matcher@),
{
    let len: usize = line.unicode_len();
    let mlen: usize = matcher.unicode_len();
    let mut a: usize = 0;
    while a < len && is_blank_exec(line.get_char(a))
        invariant
            0 <= a <= len,
            forall|m: int| 0 <= m < a ==> is_blank(line@[m]),
        decreases len - a,
    {
        a = a + 1;
    }
    proof {
        lemma_trim_start_skip(line@, a as int);
    }
    let mut b: usize = len;
    while b > a && is_blank_exec(line.get_char(b - 1))
        invariant
            a <= b <= len,
            forall|m: int| b <= m < len ==> is_blank(line@[m]),
        decreases b,
    {
        b = b - 1;
    }
    proof {
        assert(forall|m: int|
            b - a <= m < line@.skip(a as int).len() ==> is_blank(line@.skip(a as int)[m]));
        lemma_trim_end_take(line@.skip(a as int), b - a);
        assert(line@.skip(a as int).take(b - a) =~= line@.subrange(a as int, b as int));
        assert(trim_of(line@) == line@.subrange(a as int, b as int));
    }
    if mlen > b - a {
        proof {
            assert(!matcher@.is_prefix_of(trim_of(line@)));
        }
        return false;
    }
    let mut k: usize = 0;
    while k < mlen
        invariant
            0 <= k <= mlen,
            mlen <= b - a,
            trim_of(line@) == line@.subrange(a as int, b as int),
            forall|m: int| 0 <= m < k ==> matcher@[m] == line@[a + m],
        decreases mlen - k,
    {
        if matcher.get_char(k) != line.get_char(a + k) {
            proof {
                assert(trim_of(line@)[k as int] == line@[a + k]);
                assert(!matcher@.is_prefix_of(trim_of(line@)));
            }
            return false;
        }
        k = k + 1;
    }
    proof {
        assert(matcher@ =~= trim_of(line@).subrange(0, mlen as int));
    }
    true
}

/// Return the first line of `text` whose trimmed text starts with `matcher`,
/// as the line splitter hands it out: without its `"\n"` or `"\r\n"`
/// terminator, the unterminated final line whole. `None` when no line
/// matches.
#[verifier::loop_isolation(false)]
pub fn get_line<'a>(text: &'a str, matcher: &'a str) -> (r: Option<&'a str>)
    ensures
        match r {
            Some(l) => find_line(text@, matcher@) == Some(l@),
            None => find_line(text@, matcher@) is None,
        },
{
    let len: usize = text.unicode_len();
    proof {
        assert(text@.skip(0) =~= text@);
    }
    let mut start: usize = 0;
    while start < len
        invariant
            0 <= start <= len,
            find_line(text@, matcher@) == find_line(text@.skip(start as int), matcher@),
        decreases len - start,
    {
        let ghost suffix = text@.skip(start as int);
        let mut j: usize = start;
        while j < len && text.get_char(j) != '\n'
            invariant
                start <= j <= len,
                forall|m: int| start <= m < j ==> text@[m] != '\n',
            decreases len - j,
        {
            j = j + 1;
        }
        proof {
            assert(forall|m: int| 0 <= m < j - start ==> suffix[m] != '\n');
            if j < len {
                assert(suffix[j - start] == '\n');
            }
            lemma_eol_at_is(suffix, j - start);
        }
        let line_end: usize = if j < len && j > start && text.get_char(j - 1) == '\r' {
            j - 1
        } else {
            j
        };
        proof {
            assert(suffix.take(j - start) =~= text@.subrange(start as int, j as int));
            if j < len {
                assert(strip_cr(suffix.take(j - start)) =~= text@.subrange(
                    start as int,
                    line_end as int,
                ));
            }
        }
        let line_str: &str = text.substring_char(start, line_end);
        if line_matches_exec(line_str, matcher) {
            return Some(line_str);
        }
        if j == len {
            return None;
        }
        proof {
            assert(suffix.skip(j - start + 1) =~= text@.skip(j as int + 1));
        }
        start = j + 1;
    }
    proof {
        assert(text@.skip(start as int) =~= Seq::<char>::empty());
    }
    None
}

} // verus!
