//! Character-level text utilities: UTF-8 byte lengths, ASCII whitespace
//! trimming, and splitting text into lines.
//!
//! All specifications are over `Seq<char>` views; sizes are counted in UTF-8
//! bytes, the way the chunk size limits are stated.

use vstd::prelude::*;
use vstd::string::StringExecFns;

verus! {

/// ASCII whitespace, the set the chunkers trim.
pub open spec fn is_space(c: char) -> bool {
    c == ' ' || c == '\t' || c == '\n' || c == '\r'
}

pub fn is_space_char(c: char) -> (r: bool)
    ensures
        r == is_space(c),
{
    c == ' ' || c == '\t' || c == '\n' || c == '\r'
}

/// How many bytes a character takes in UTF-8.
pub open spec fn char_size(c: char) -> int {
    if (c as u32) < 0x80 {
        1
    } else if (c as u32) < 0x800 {
        2
    } else if (c as u32) < 0x10000 {
        3
    } else {
        4
    }
}

/// The UTF-8 byte length of a character sequence.
pub open spec fn byte_len(s: Seq<char>) -> int
    decreases s.len(),
{
    if s.len() == 0 {
        0
    } else {
        byte_len(s.drop_last()) + char_size(s.last())
    }
}

pub proof fn lemma_byte_len_bounds(s: Seq<char>)
    ensures
        s.len() <= byte_len(s) <= 4 * s.len(),
    decreases s.len(),
{
    if s.len() > 0 {
        lemma_byte_len_bounds(s.drop_last());
    }
}

pub proof fn lemma_byte_len_push(s: Seq<char>, c: char)
    ensures
        byte_len(s.push(c)) == byte_len(s) + char_size(c),
{
    assert(s.push(c).drop_last() =~= s);
    assert(s.push(c).last() == c);
}

pub proof fn lemma_byte_len_concat(a: Seq<char>, b: Seq<char>)
    ensures
        byte_len(a + b) == byte_len(a) + byte_len(b),
    decreases b.len(),
{
    if b.len() == 0 {
        assert(a + b =~= a);
    } else {
        assert((a + b).drop_last() =~= a + b.drop_last());
        assert((a + b).last() == b.last());
        lemma_byte_len_concat(a, b.drop_last());
    }
}

pub proof fn lemma_byte_len_subrange(s: Seq<char>, i: int, j: int)
    requires
        0 <= i <= j <= s.len(),
    ensures
        byte_len(s.subrange(i, j)) == byte_len(s.take(j)) - byte_len(s.take(i)),
{
    assert(s.take(j) =~= s.take(i) + s.subrange(i, j));
    lemma_byte_len_concat(s.take(i), s.subrange(i, j));
}

/// A text never has more lines than characters.
pub proof fn lemma_lines_count(s: Seq<char>)
    ensures
        lines_of(s).len() <= s.len(),
    decreases s.len(),
{
    if s.len() > 0 {
        lemma_first_newline_bounds(s);
        let i = first_newline(s);
        if i < s.len() {
            lemma_lines_count(s.skip(i + 1));
        }
    }
}

/// Byte size of one character, computed.
pub fn char_size_of(c: char) -> (r: usize)
    ensures
        r as int == char_size(c),
        1 <= r <= 4,
{
    let u = c as u32;
    if u < 0x80 {
        1
    } else if u < 0x800 {
        2
    } else if u < 0x10000 {
        3
    } else {
        4
    }
}

/// The characters of a string, as an indexable vector.
pub fn to_chars(s: &str) -> (r: Vec<char>)
    ensures
        r@ == s@,
{
    proof {
        broadcast use vstd::string::axiom_spec_iter;
        broadcast use vstd::string::next_postcondition;
    }
    let mut r: Vec<char> = Vec::new();
    let mut it = s.chars();
    loop
        invariant
            vstd::std_specs::iter::IteratorSpec::obeys_prophetic_iter_laws(&it),
            r@ + vstd::std_specs::iter::IteratorSpec::remaining(&it) == s@,
            vstd::std_specs::iter::IteratorSpec::decrease(&it) is Some,
        decreases vstd::std_specs::iter::IteratorSpec::decrease(&it).unwrap(),
    {
        let ghost pre = it;
        let next = it.next();
        match next {
            Some(c) => {
                r.push(c);
            },
            None => {
                proof {
                    assert(vstd::std_specs::iter::IteratorSpec::remaining(&pre).len() == 0);
                    assert(r@ =~= s@);
                }
                return r;
            },
        }
    }
}

/// String-slice equality, by value.
pub fn str_eq(a: &str, b: &str) -> (r: bool)
    ensures
        r == (a@ == b@),
{
    let x = String::from_str(a);
    let y = String::from_str(b);
    x == y
}

/// Lexicographic order on texts, by code point.
pub open spec fn lex_lt(a: Seq<char>, b: Seq<char>) -> bool
    decreases a.len(),
{
    if b.len() == 0 {
        false
    } else if a.len() == 0 {
        true
    } else if a[0] == b[0] {
        lex_lt(a.drop_first(), b.drop_first())
    } else {
        (a[0] as u32) < (b[0] as u32)
    }
}

pub proof fn lemma_lex_irrefl(a: Seq<char>)
    ensures
        !lex_lt(a, a),
    decreases a.len(),
{
    if a.len() > 0 {
        lemma_lex_irrefl(a.drop_first());
    }
}

pub proof fn lemma_lex_trans(a: Seq<char>, b: Seq<char>, c: Seq<char>)
    requires
        lex_lt(a, b),
        lex_lt(b, c),
    ensures
        lex_lt(a, c),
    decreases a.len() + b.len() + c.len(),
{
    if a.len() == 0 {
        assert(c.len() > 0);
    } else {
        assert(b.len() > 0 && c.len() > 0);
        if a[0] == b[0] && b[0] == c[0] {
            lemma_lex_trans(a.drop_first(), b.drop_first(), c.drop_first());
        }
    }
}

/// Compares two strings lexicographically by code point.
pub fn str_lt(a: &str, b: &str) -> (r: bool)
    ensures
        r == lex_lt(a@, b@),
{
    let va = to_chars(a);
    let vb = to_chars(b);
    let na = va.len();
    let nb = vb.len();
    let mut i: usize = 0;
    proof {
        assert(a@.skip(0) =~= a@);
        assert(b@.skip(0) =~= b@);
    }
    while i < na && i < nb
        invariant
            0 <= i,
            i <= na,
            i <= nb,
            na == va@.len(),
            nb == vb@.len(),
            va@ == a@,
            vb@ == b@,
            lex_lt(a@, b@) == lex_lt(a@.skip(i as int), b@.skip(i as int)),
        decreases na - i,
    {
        proof {
            let sa = a@.skip(i as int);
            let sb = b@.skip(i as int);
            assert(sa[0] == a@[i as int] && sb[0] == b@[i as int]);
            assert(sa.drop_first() =~= a@.skip(i + 1));
            assert(sb.drop_first() =~= b@.skip(i + 1));
        }
        let ca = va[i];
        let cb = vb[i];
        if !(ca == cb) {
            return (ca as u32) < (cb as u32);
        }
        i = i + 1;
    }
    proof {
        let sa = a@.skip(i as int);
        let sb = b@.skip(i as int);
        if i < nb {
            assert(sb.len() > 0 && sa.len() == 0);
        } else {
            assert(sb.len() == 0);
        }
    }
    i >= na && i < nb
}

/// `s` with leading ASCII whitespace removed.
pub open spec fn trim_start_spec(s: Seq<char>) -> Seq<char>
    decreases s.len(),
{
    if s.len() == 0 {
        s
    } else if is_space(s[0]) {
        trim_start_spec(s.drop_first())
    } else {
        s
    }
}

/// `s` with trailing ASCII whitespace removed.
pub open spec fn trim_end_spec(s: Seq<char>) -> Seq<char>
    decreases s.len(),
{
    if s.len() == 0 {
        s
    } else if is_space(s.last()) {
        trim_end_spec(s.drop_last())
    } else {
        s
    }
}

/// `s` with whitespace removed at both ends.
pub open spec fn trim_spec(s: Seq<char>) -> Seq<char> {
    trim_end_spec(trim_start_spec(s))
}

/// A sequence is blank when it holds only whitespace.
pub open spec fn is_blank(s: Seq<char>) -> bool {
    forall|i: int| 0 <= i < s.len() ==> is_space(#[trigger] s[i])
}

pub proof fn lemma_trim_start_skip(s: Seq<char>, i: int)
    requires
        0 <= i <= s.len(),
        forall|j: int| 0 <= j < i ==> is_space(#[trigger] s[j]),
    ensures
        trim_start_spec(s) == trim_start_spec(s.skip(i)),
    decreases i,
{
    if i == 0 {
        assert(s.skip(0) =~= s);
    } else {
        assert(is_space(s[0]));
        assert(trim_start_spec(s) == trim_start_spec(s.drop_first()));
        assert(s.drop_first() =~= s.skip(1));
        lemma_trim_start_skip(s.skip(1), i - 1);
        assert(s.skip(1).skip(i - 1) =~= s.skip(i));
    }
}

pub proof fn lemma_trim_start_clean(s: Seq<char>)
    requires
        s.len() == 0 || !is_space(s[0]),
    ensures
        trim_start_spec(s) == s,
{
}

pub proof fn lemma_trim_end_take(s: Seq<char>, i: int)
    requires
        0 <= i <= s.len(),
        forall|j: int| i <= j < s.len() ==> is_space(#[trigger] s[j]),
    ensures
        trim_end_spec(s) == trim_end_spec(s.take(i)),
    decreases s.len() - i,
{
    if i == s.len() {
        assert(s.take(i) =~= s);
    } else {
        assert(is_space(s.last()));
        assert(trim_end_spec(s) == trim_end_spec(s.drop_last()));
        assert(s.drop_last() =~= s.take(s.len() - 1));
        lemma_trim_end_take(s.take(s.len() - 1), i);
        assert(s.take(s.len() - 1).take(i) =~= s.take(i));
    }
}

pub proof fn lemma_trim_end_clean(s: Seq<char>)
    requires
        s.len() == 0 || !is_space(s.last()),
    ensures
        trim_end_spec(s) == s,
{
}

pub proof fn lemma_blank_trim(s: Seq<char>)
    requires
        is_blank(s),
    ensures
        trim_spec(s).len() == 0,
{
    lemma_trim_start_skip(s, s.len() as int);
    assert(s.skip(s.len() as int) =~= Seq::<char>::empty());
}

/// The bounds of the trimmed part of `v[from..to)`: everything before the
/// first index and from the second index on is whitespace, and the ends of
/// the trimmed range are not.
pub fn trim_bounds(v: &Vec<char>, from: usize, to: usize) -> (r: (usize, usize))
    requires
        0 <= from <= to <= v@.len(),
    ensures
        from <= r.0 <= r.1 <= to,
        forall|j: int| from <= j < r.0 ==> is_space(#[trigger] v@[j]),
        forall|j: int| r.1 <= j < to ==> is_space(#[trigger] v@[j]),
        r.0 < r.1 ==> !is_space(v@[r.0 as int]) && !is_space(v@[r.1 - 1]),
        trim_spec(v@.subrange(from as int, to as int)) == v@.subrange(r.0 as int, r.1 as int),
{
    let ghost s = v@.subrange(from as int, to as int);
    let mut a = from;
    while a < to && is_space_char(v[a])
        invariant
            from <= a <= to <= v@.len(),
            forall|j: int| from <= j < a ==> is_space(#[trigger] v@[j]),
        decreases to - a,
    {
        a = a + 1;
    }
    let mut b = to;
    while b > a && is_space_char(v[b - 1])
        invariant
            a <= b <= to <= v@.len(),
            forall|j: int| b <= j < to ==> is_space(#[trigger] v@[j]),
        decreases b,
    {
        b = b - 1;
    }
    proof {
        lemma_trim_start_skip(s, a - from);
        assert(s.skip(a - from) =~= v@.subrange(a as int, to as int));
        let t = v@.subrange(a as int, to as int);
        if a < to {
            assert(t[0] == v@[a as int]);
            assert(!is_space(t[0]));
        }
        lemma_trim_start_clean(t);
        lemma_trim_end_take(t, b - a);
        assert(t.take(b - a) =~= v@.subrange(a as int, b as int));
        let u = v@.subrange(a as int, b as int);
        if a < b {
            assert(u.last() == v@[b - 1]);
            assert(!is_space(u.last()));
        }
        lemma_trim_end_clean(u);
    }
    (a, b)
}

/// Index of the first newline in `s`, or `s.len()` when there is none.
pub open spec fn first_newline(s: Seq<char>) -> int
    decreases s.len(),
{
    if s.len() == 0 {
        0
    } else if s[0] == '\n' {
        0
    } else {
        1 + first_newline(s.drop_first())
    }
}

/// Strips one carriage return from the end, if present.
pub open spec fn strip_cr(s: Seq<char>) -> Seq<char> {
    if s.len() > 0 && s.last() == '\r' {
        s.drop_last()
    } else {
        s
    }
}

/// The lines of `s`: split at `'\n'`, with a carriage return immediately
/// before a newline removed, and no empty line after a trailing newline.
pub open spec fn lines_of(s: Seq<char>) -> Seq<Seq<char>>
    decreases s.len(),
    via lines_of_decreases
{
    if s.len() == 0 {
        Seq::empty()
    } else {
        let i = first_newline(s);
        if i == s.len() {
            seq![s]
        } else {
            seq![strip_cr(s.take(i))] + lines_of(s.skip(i + 1))
        }
    }
}

#[via_fn]
proof fn lines_of_decreases(s: Seq<char>) {
    lemma_first_newline_bounds(s);
}

pub proof fn lemma_first_newline_bounds(s: Seq<char>)
    ensures
        0 <= first_newline(s) <= s.len(),
        forall|j: int| 0 <= j < first_newline(s) ==> #[trigger] s[j] != '\n',
        first_newline(s) < s.len() ==> s[first_newline(s)] == '\n',
    decreases s.len(),
{
    if s.len() > 0 && s[0] != '\n' {
        lemma_first_newline_bounds(s.drop_first());
        assert forall|j: int| 0 <= j < first_newline(s) implies #[trigger] s[j] != '\n' by {
            if j > 0 {
                assert(s.drop_first()[j - 1] == s[j]);
                assert(s.drop_first()[j - 1] != '\n');
            }
        }
    }
}

pub proof fn lemma_first_newline_is(s: Seq<char>, i: int)
    requires
        0 <= i <= s.len(),
        forall|j: int| 0 <= j < i ==> #[trigger] s[j] != '\n',
        i < s.len() ==> s[i] == '\n',
    ensures
        first_newline(s) == i,
    decreases i,
{
    if i == 0 {
        if s.len() > 0 {
            assert(s[0] == '\n');
        }
    } else {
        assert(s[0] != '\n');
        lemma_first_newline_is(s.drop_first(), i - 1);
    }
}

/// Splitting at a position just after a newline splits the line sequence.
pub proof fn lemma_lines_of_split(s: Seq<char>, p: int)
    requires
        0 < p <= s.len(),
        s[p - 1] == '\n',
    ensures
        lines_of(s) =~~= lines_of(s.take(p)) + lines_of(s.skip(p)),
    decreases s.len(),
{
    lemma_first_newline_bounds(s);
    let i = first_newline(s);
    assert(i <= p - 1);
    assert(i < s.len());
    let sp = s.take(p);
    assert(sp.len() == p);
    assert forall|j: int| 0 <= j < i implies #[trigger] sp[j] != '\n' by {
        assert(sp[j] == s[j]);
    }
    assert(sp[i] == s[i]);
    lemma_first_newline_is(sp, i);
    if i == p - 1 {
        assert(lines_of(s) == seq![strip_cr(s.take(i))] + lines_of(s.skip(i + 1)));
        assert(sp.take(i) =~= s.take(i));
        assert(sp.skip(i + 1) =~= Seq::<char>::empty());
        assert(lines_of(sp) == seq![strip_cr(sp.take(i))] + lines_of(sp.skip(i + 1)));
        assert(s.skip(i + 1) =~= s.skip(p));
    } else {
        // the first newline lies strictly before p - 1
        assert(lines_of(s) == seq![strip_cr(s.take(i))] + lines_of(s.skip(i + 1)));
        assert(lines_of(sp) == seq![strip_cr(sp.take(i))] + lines_of(sp.skip(i + 1)));
        assert(sp.take(i) =~= s.take(i));
        let u = s.skip(i + 1);
        assert(u[p - i - 2] == s[p - 1]);
        lemma_lines_of_split(u, p - i - 1);
        assert(u.take(p - i - 1) =~= sp.skip(i + 1));
        assert(u.skip(p - i - 1) =~= s.skip(p));
    }
}

/// A string with no newline except possibly at its very end is one line.
pub proof fn lemma_lines_of_single(w: Seq<char>)
    requires
        w.len() > 0,
        forall|j: int| 0 <= j < w.len() - 1 ==> #[trigger] w[j] != '\n',
    ensures
        w.last() == '\n' ==> lines_of(w) =~~= seq![strip_cr(w.take(w.len() - 1))],
        w.last() != '\n' ==> lines_of(w) =~~= seq![w],
    decreases w.len(),
{
    if w.last() == '\n' {
        lemma_first_newline_is(w, w.len() - 1);
        assert(lines_of(w) == seq![strip_cr(w.take(w.len() - 1))] + lines_of(
            w.skip(w.len() as int),
        ));
        assert(w.skip(w.len() as int) =~= Seq::<char>::empty());
    } else {
        lemma_first_newline_is(w, w.len() as int);
    }
}

/// One line of text: `start..end` is the line's content (without the line
/// terminator), and `next` is where the following line begins.
#[derive(Clone, Copy)]
pub struct LineSpan {
    pub start: usize,
    pub end: usize,
    pub next: usize,
}

/// The structural facts `line_spans` guarantees about its result.
pub open spec fn spans_wf(s: Seq<char>, spans: Seq<LineSpan>) -> bool {
    &&& spans.len() == lines_of(s).len()
    &&& forall|k: int|
        0 <= k < spans.len() ==> (#[trigger] spans[k]).start <= spans[k].end <= spans[k].next
            <= s.len()
    &&& forall|k: int|
        0 <= k < spans.len() ==> s.subrange(
            (#[trigger] spans[k]).start as int,
            spans[k].end as int,
        ) == lines_of(s)[k]
    &&& forall|k: int|
        0 < k < spans.len() ==> (#[trigger] spans[k]).start == spans[k - 1].next
    &&& forall|k: int|
        0 <= k < spans.len() - 1 ==> s[(#[trigger] spans[k]).next - 1] == '\n'
            && spans[k].end < spans[k].next
    &&& forall|k: int|
        0 <= k < spans.len() ==> lines_of(s.take((#[trigger] spans[k]).start as int))
            =~~= lines_of(s).take(k)
    &&& (spans.len() > 0 ==> spans[0].start == 0 && spans[spans.len() - 1].next == s.len())
}

/// Splits the text into its lines, returning for each line where it starts,
/// where its content ends, and where the next line begins.
#[verifier::rlimit(100)]
pub fn line_spans(v: &Vec<char>) -> (spans: Vec<LineSpan>)
    ensures
        spans_wf(v@, spans@),
{
    let n = v.len();
    let mut spans: Vec<LineSpan> = Vec::new();
    let mut pos: usize = 0;
    proof {
        assert(v@.take(0) =~= Seq::<char>::empty());
        assert(lines_of(v@).take(0) =~~= Seq::<Seq<char>>::empty());
        assert(v@.skip(0) =~= v@);
        assert(lines_of(v@).skip(0) =~~= lines_of(v@));
    }
    while pos < n
        invariant
            0 <= pos <= n,
            n == v@.len(),
            lines_of(v@.take(pos as int)) =~~= lines_of(v@).take(spans@.len() as int),
            lines_of(v@.skip(pos as int)) =~~= lines_of(v@).skip(spans@.len() as int),
            spans@.len() <= lines_of(v@).len(),
            pos == if spans@.len() == 0 {
                0
            } else {
                spans@[spans@.len() - 1].next as int
            },
            pos == n ==> spans@.len() == lines_of(v@).len(),
            forall|k: int|
                0 <= k < spans@.len() ==> (#[trigger] spans@[k]).start <= spans@[k].end
                    <= spans@[k].next <= n,
            forall|k: int|
                0 <= k < spans@.len() ==> v@.subrange(
                    (#[trigger] spans@[k]).start as int,
                    spans@[k].end as int,
                ) == lines_of(v@)[k],
            forall|k: int|
                0 < k < spans@.len() ==> (#[trigger] spans@[k]).start == spans@[k - 1].next,
            forall|k: int|
                0 <= k < spans@.len() && spans@[k].next < n ==> v@[(#[trigger] spans@[k]).next
                    - 1] == '\n' && spans@[k].end < spans@[k].next,
            forall|k: int|
                0 <= k < spans@.len() ==> lines_of(v@.take((#[trigger] spans@[k]).start as int))
                    =~~= lines_of(v@).take(k),
            spans@.len() > 0 ==> spans@[0].start == 0,
        decreases n - pos,
    {
        let start = pos;
        let mut q = pos;
        while q < n && v[q] != '\n'
            invariant
                pos <= q <= n,
                n == v@.len(),
                forall|j: int| pos <= j < q ==> #[trigger] v@[j] != '\n',
            decreases n - q,
        {
            q = q + 1;
        }
        let (end, next) = if q < n {
            if q > pos && v[q - 1] == '\r' {
                (q - 1, q + 1)
            } else {
                (q, q + 1)
            }
        } else {
            (q, n)
        };
        proof {
            let ghost k = spans@.len() as int;
            let u = v@.skip(pos as int);
            assert forall|j: int| 0 <= j < q - pos implies #[trigger] u[j] != '\n' by {
                assert(u[j] == v@[pos + j]);
            }
            if (q as int) < n as int {
                assert(u[q - pos] == v@[q as int]);
            }
            lemma_first_newline_is(u, q - pos);
            assert(u.len() > 0);
            // the head line of the remaining text
            if q < n {
                assert(lines_of(u) == seq![strip_cr(u.take(q - pos))] + lines_of(
                    u.skip(q - pos + 1),
                ));
                assert(u.take(q - pos) =~= v@.subrange(pos as int, q as int));
                if q > pos && v@[q - 1] == '\r' {
                    assert(strip_cr(u.take(q - pos)) =~= v@.subrange(pos as int, end as int));
                } else {
                    assert(strip_cr(u.take(q - pos)) =~= v@.subrange(pos as int, end as int));
                }
                assert(u.skip(q - pos + 1) =~= v@.skip(next as int));
            } else {
                assert(first_newline(u) == u.len());
                assert(lines_of(u) == seq![u]);
                assert(u =~= v@.subrange(pos as int, end as int));
                assert(lines_of(v@.skip(next as int)) =~= Seq::<Seq<char>>::empty());
            }
            // lines_of(v@)[k] is this line
            assert(lines_of(v@).skip(k)[0] == lines_of(v@)[k]);
            assert(lines_of(v@)[k] == v@.subrange(pos as int, end as int));
            // the prefix grows by one line
            assert(lines_of(v@.take(next as int)) =~~= lines_of(v@).take(k + 1)) by {
                if q < n {
                    let w = v@.take(next as int);
                    if pos > 0 {
                        assert(w[pos - 1] == v@[pos - 1]);
                        lemma_lines_of_split(w, pos as int);
                        assert(w.take(pos as int) =~= v@.take(pos as int));
                        let tail = w.skip(pos as int);
                        assert(tail =~= v@.subrange(pos as int, next as int));
                        assert(tail.len() > 0 && tail.last() == '\n');
                        assert forall|j: int| 0 <= j < tail.len() - 1 implies #[trigger] tail[j]
                            != '\n' by {
                            assert(tail[j] == v@[pos + j]);
                        }
                        lemma_lines_of_single(tail);
                        assert(strip_cr(tail.take(tail.len() - 1)) =~= v@.subrange(
                            pos as int,
                            end as int,
                        ));
                        assert(lines_of(v@).take(k + 1) =~~= lines_of(v@).take(k) + seq![
                            lines_of(v@)[k],
                        ]);
                    } else {
                        let tail = w;
                        assert(tail =~= v@.subrange(pos as int, next as int));
                        assert(tail.len() > 0 && tail.last() == '\n');
                        assert forall|j: int| 0 <= j < tail.len() - 1 implies #[trigger] tail[j]
                            != '\n' by {
                            assert(tail[j] == v@[pos + j]);
                        }
                        lemma_lines_of_single(tail);
                        assert(strip_cr(tail.take(tail.len() - 1)) =~= v@.subrange(
                            pos as int,
                            end as int,
                        ));
                        assert(lines_of(v@).take(k + 1) =~~= lines_of(v@).take(k) + seq![
                            lines_of(v@)[k],
                        ]);
                        assert(lines_of(v@.take(pos as int)) =~~= Seq::<Seq<char>>::empty());
                    }
                } else {
                    assert(v@.take(next as int) =~= v@);
                    assert(lines_of(v@).take(k + 1) =~~= lines_of(v@)) by {
                        assert(lines_of(v@).skip(k).len() == lines_of(u).len());
                        assert(lines_of(u).len() == 1);
                        assert(lines_of(v@).len() == k + 1);
                    }
                }
            }
            // the remainder loses one line
            assert(lines_of(v@.skip(next as int)) =~~= lines_of(v@).skip(k + 1)) by {
                if q < n {
                    assert(lines_of(u) =~~= lines_of(v@).skip(k));
                    assert(lines_of(u) == seq![strip_cr(u.take(q - pos))] + lines_of(
                        v@.skip(next as int),
                    ));
                    assert forall|m: int|
                        0 <= m < lines_of(v@).skip(k + 1).len() implies lines_of(v@).skip(k + 1)[m]
                        == lines_of(v@.skip(next as int))[m] by {
                        assert(lines_of(v@).skip(k + 1)[m] == lines_of(v@).skip(k)[m + 1]);
                        assert(lines_of(u)[m + 1] == lines_of(v@.skip(next as int))[m]);
                    }
                    assert(lines_of(v@).skip(k + 1).len() == lines_of(v@.skip(next as int)).len());
                } else {
                    assert(lines_of(v@).len() == k + 1);
                    assert(lines_of(v@).skip(k + 1) =~~= Seq::<Seq<char>>::empty());
                }
            }
        }
        spans.push(LineSpan { start, end, next });
        pos = next;
        proof {
            assert(pos == n ==> spans@.len() == lines_of(v@).len()) by {
                if pos == n {
                    assert(lines_of(v@.skip(n as int)) =~~= Seq::<Seq<char>>::empty());
                    assert(lines_of(v@).skip(spans@.len() as int).len() == 0);
                }
            }
        }
    }
    proof {
        assert(spans@.len() == lines_of(v@).len()) by {
            if spans@.len() < lines_of(v@).len() {
                assert(pos == n);
            }
        }
        assert forall|k: int| 0 <= k < spans@.len() - 1 implies v@[(#[trigger] spans@[k]).next
            - 1] == '\n' && spans@[k].end < spans@[k].next by {
            assert(spans@[k + 1].start == spans@[k].next);
            assert(spans@[k + 1].start <= spans@[k + 1].next);
            if spans@[k].next == n {
                // a line that ends at the very end of the text is the last
                assert(lines_of(v@.take(spans@[k + 1].start as int)) =~~= lines_of(v@).take(k + 1));
                assert(v@.take(n as int) =~= v@);
                assert(lines_of(v@).take(k + 1).len() < lines_of(v@).len());
            }
        }
    }
    spans
}

/// True when `v[from..to)` is all whitespace.
pub fn range_is_blank(v: &Vec<char>, from: usize, to: usize) -> (r: bool)
    requires
        0 <= from <= to <= v@.len(),
    ensures
        r == is_blank(v@.subrange(from as int, to as int)),
{
    let ghost s = v@.subrange(from as int, to as int);
    let mut i = from;
    while i < to
        invariant
            from <= i <= to <= v@.len(),
            forall|j: int| from <= j < i ==> is_space(#[trigger] v@[j]),
        decreases to - i,
    {
        if !is_space_char(v[i]) {
            proof {
                let sub = v@.subrange(from as int, to as int);
                assert(sub[i - from] == v@[i as int]);
                assert(!is_blank(sub));
            }
            return false;
        }
        i = i + 1;
    }
    assert forall|j: int| 0 <= j < s.len() implies is_space(#[trigger] s[j]) by {
        assert(s[j] == v@[from + j]);
    }
    true
}

} // verus!
