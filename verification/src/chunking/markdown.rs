//! Header-aware chunker for Markdown text.
//!
//! The text is walked line by line with a three-level heading context
//! (title, section, subsection). A heading line outside fenced code closes
//! the current section; oversized sections are split further, but never
//! inside a fenced code block.

use super::{
    clone_opt_string, create_chunk, opt_str_eq, Chunk, ChunkMetadata, DocMetadata, MIN_CHUNK,
    OVERLAP, TARGET_SIZE,
};
use crate::outside::md5_hex_of;
use crate::textutil::{
    byte_len, char_size_of, is_blank, is_space, lemma_byte_len_bounds, lemma_byte_len_push,
    lemma_byte_len_subrange, lemma_lines_count, lemma_lines_of_split, lemma_trim_start_clean,
    lemma_trim_start_skip, line_spans, lines_of, range_is_blank, spans_wf, to_chars, trim_bounds,
    trim_spec, trim_start_spec, LineSpan,
};
use vstd::arithmetic::div_mod::{lemma_fundamental_div_mod, lemma_mod_multiples_basic};
use vstd::prelude::*;
use vstd::string::{StrSliceExecFns, StringExecFns};

verus! {

/// A line that opens or closes a fenced code block: its trimmed form starts
/// with three backticks.
pub open spec fn is_fence(line: Seq<char>) -> bool {
    let t = trim_start_spec(line);
    t.len() >= 3 && t[0] == '`' && t[1] == '`' && t[2] == '`'
}

/// Number of `#` characters at the start of `t`.
pub open spec fn leading_hashes(t: Seq<char>) -> int
    decreases t.len(),
{
    if t.len() == 0 || t[0] != '#' {
        0
    } else {
        1 + leading_hashes(t.drop_first())
    }
}

/// The heading level of a line: 1, 2 or 3 when its trimmed form is that many
/// `#` followed by a space; 0 otherwise.
pub open spec fn header_level(line: Seq<char>) -> int {
    let t = trim_start_spec(line);
    let k = leading_hashes(t);
    if 1 <= k <= 3 && k < t.len() && t[k] == ' ' {
        k
    } else {
        0
    }
}

/// The heading text of a heading line: what follows the `#` marker, trimmed.
pub open spec fn header_text(line: Seq<char>) -> Seq<char> {
    let t = trim_start_spec(line);
    trim_spec(t.skip(leading_hashes(t) + 1))
}

/// How many of the first `k` lines are code fences.
pub open spec fn fence_count(lines: Seq<Seq<char>>) -> int
    decreases lines.len(),
{
    if lines.len() == 0 {
        0
    } else {
        fence_count(lines.drop_last()) + if is_fence(lines.last()) {
            1int
        } else {
            0
        }
    }
}

/// Number of fence lines among the first `k` lines.
pub open spec fn pfence(lines: Seq<Seq<char>>, k: int) -> int {
    fence_count(lines.take(k))
}

/// Whether line `k` starts inside a fenced code block.
pub open spec fn in_code_before(lines: Seq<Seq<char>>, k: int) -> bool
    decreases k,
{
    if k <= 0 {
        false
    } else {
        in_code_before(lines, k - 1) != is_fence(lines[k - 1])
    }
}

/// A heading of the given level standing outside fenced code.
pub open spec fn real_heading(lines: Seq<Seq<char>>, k: int, level: int) -> bool {
    0 <= k < lines.len() && !in_code_before(lines, k) && header_level(lines[k]) == level
}

/// A heading value names a real heading line of the document: some line of
/// that level, outside fenced code, whose heading text it equals.
pub open spec fn heading_from_doc(doc: Seq<char>, o: Option<String>, level: int) -> bool {
    match o {
        Option::Some(s) => exists|j: int|
            #[trigger] real_heading(lines_of(doc), j, level) && s@ == header_text(
                lines_of(doc)[j],
            ),
        Option::None => true,
    }
}

/// Heading discipline: every subsection heading follows a section heading of
/// the same chapter, and every section or subsection heading follows a title
/// heading.
pub open spec fn heading_discipline(lines: Seq<Seq<char>>) -> bool {
    &&& forall|k: int|
        #[trigger] real_heading(lines, k, 3) ==> exists|j: int|
            0 <= j < k && #[trigger] real_heading(lines, j, 2) && (forall|m: int|
                j < m < k ==> !(#[trigger] real_heading(lines, m, 1)))
    &&& forall|k: int|
        #[trigger] real_heading(lines, k, 3) ==> exists|j: int|
            0 <= j < k && #[trigger] real_heading(lines, j, 1)
    &&& forall|k: int|
        #[trigger] real_heading(lines, k, 2) ==> exists|j: int|
            0 <= j < k && #[trigger] real_heading(lines, j, 1)
}

/// The total number of fence lines is even: every code block is closed.
pub open spec fn fences_balanced(s: Seq<char>) -> bool {
    fence_count(lines_of(s)) % 2 == 0
}

/// The text holds three backticks in a row somewhere.
pub open spec fn has_backtick_fence(s: Seq<char>) -> bool {
    exists|i: int| 0 <= i && i + 3 <= s.len() && s[i] == '`' && #[trigger] s[i + 1] == '`' && s[i
        + 2] == '`'
}

/// A chunk whose subsection is set also carries its section and title.
pub open spec fn hierarchy_consistent(m: ChunkMetadata) -> bool {
    m.subsection is Some ==> m.section is Some && m.title is Some
}

/// The view of an optional string as a sequence of zero or one texts.
pub open spec fn opt_view(o: Option<String>) -> Seq<Seq<char>> {
    match o {
        Option::Some(s) => seq![s@],
        Option::None => Seq::empty(),
    }
}

/// The hierarchy lists exactly the headings that are set, outermost first.
pub open spec fn hierarchy_matches(m: ChunkMetadata) -> bool {
    m.hierarchy@.map_values(|s: String| s@) == opt_view(m.title) + opt_view(m.section) + opt_view(
        m.subsection,
    )
}

/// Everything the markdown chunker guarantees of one emitted chunk.
pub open spec fn md_chunk_ok(doc: Seq<char>, meta: DocMetadata, c: Chunk) -> bool {
    &&& c.metadata.document_id@ == meta.document_id@
    &&& c.metadata.source_id@ == meta.source_id@
    &&& opt_str_eq(c.metadata.file_path, meta.file_path)
    &&& c.id@.len() == 36
    &&& c.metadata.content_hash@ == md5_hex_of(c.content@)
    &&& c.metadata.has_code == has_backtick_fence(c.content@)
    &&& hierarchy_matches(c.metadata)
    &&& byte_len(c.content@) >= MIN_CHUNK as int
    &&& 1 <= c.metadata.line_start <= c.metadata.line_end
    &&& exists|a: int, b: int| #[trigger] md_window_ok(doc, c, a, b)
    &&& (heading_discipline(lines_of(doc)) ==> hierarchy_consistent(c.metadata))
    &&& heading_from_doc(doc, c.metadata.title, 1)
    &&& heading_from_doc(doc, c.metadata.section, 2)
    &&& heading_from_doc(doc, c.metadata.subsection, 3)
}

/// The chunk covers lines `a ..= b` of the document, and fenced code blocks
/// are balanced at its start (and at its end, unless it runs to the last
/// line).
pub open spec fn md_window_ok(doc: Seq<char>, c: Chunk, a: int, b: int) -> bool {
    &&& 0 <= a <= b < lines_of(doc).len()
    &&& c.metadata.line_start == a + 1
    &&& c.metadata.line_end == b + 1
    &&& lines_of(c.content@) == lines_of(doc).subrange(a, b + 1)
    &&& pfence(lines_of(doc), a) % 2 == 0
    &&& (pfence(lines_of(doc), b + 1) % 2 == 0 || b + 1 == lines_of(doc).len())
}

pub proof fn lemma_leading_hashes_is(t: Seq<char>, k: int)
    requires
        0 <= k <= t.len(),
        forall|j: int| 0 <= j < k ==> #[trigger] t[j] == '#',
        k < t.len() ==> t[k] != '#',
    ensures
        leading_hashes(t) == k,
    decreases k,
{
    if k == 0 {
    } else {
        assert(t[0] == '#');
        lemma_leading_hashes_is(t.drop_first(), k - 1);
    }
}

pub proof fn lemma_pfence_step(lines: Seq<Seq<char>>, k: int)
    requires
        0 <= k < lines.len(),
    ensures
        pfence(lines, k + 1) == pfence(lines, k) + if is_fence(lines[k]) {
            1int
        } else {
            0
        },
{
    assert(lines.take(k + 1).drop_last() =~~= lines.take(k));
    assert(lines.take(k + 1).last() == lines[k]);
}

pub proof fn lemma_in_code_parity(lines: Seq<Seq<char>>, k: int)
    requires
        0 <= k <= lines.len(),
    ensures
        in_code_before(lines, k) <==> pfence(lines, k) % 2 == 1,
    decreases k,
{
    if k == 0 {
        assert(lines.take(0) =~~= Seq::<Seq<char>>::empty());
    } else {
        lemma_in_code_parity(lines, k - 1);
        lemma_pfence_step(lines, k - 1);
    }
}

pub proof fn lemma_fence_count_subrange(lines: Seq<Seq<char>>, a: int, b: int)
    requires
        0 <= a <= b <= lines.len(),
    ensures
        fence_count(lines.subrange(a, b)) == pfence(lines, b) - pfence(lines, a),
    decreases b - a,
{
    if a == b {
        assert(lines.subrange(a, b) =~~= Seq::<Seq<char>>::empty());
        assert(lines.take(a) =~~= lines.take(b));
    } else {
        lemma_fence_count_subrange(lines, a, b - 1);
        lemma_pfence_step(lines, b - 1);
        assert(lines.subrange(a, b).drop_last() =~~= lines.subrange(a, b - 1));
        assert(lines.subrange(a, b).last() == lines[b - 1]);
    }
}

/// A window of whole lines, cut out of the text, has exactly the matching
/// window of the text's lines.
#[verifier::rlimit(100)]
pub proof fn lemma_window_lines(s: Seq<char>, spans: Seq<LineSpan>, a: int, b: int)
    requires
        spans_wf(s, spans),
        0 <= a < b <= spans.len(),
    ensures
        lines_of(s.subrange(spans[a].start as int, spans[b - 1].next as int)) =~~= lines_of(
            s,
        ).subrange(a, b),
{
    let lines = lines_of(s);
    let p = spans[a].start as int;
    let e = spans[b - 1].next as int;
    // lines_of(s.skip(p)) == lines.skip(a)
    if a == 0 {
        assert(p == 0);
        assert(s.skip(0) =~= s);
        assert(lines.skip(0) =~~= lines);
    } else {
        assert(spans[a - 1].next == spans[a].start);
        assert(s[p - 1] == '\n');
        assert(p > 0);
        lemma_lines_of_split(s, p);
        assert(lines_of(s.take(p)) =~~= lines.take(a));
        assert(lines =~~= lines.take(a) + lines_of(s.skip(p)));
        assert(lines_of(s.skip(p)) =~~= lines.skip(a)) by {
            assert(lines.take(a).len() == a);
            assert forall|m: int| 0 <= m < lines_of(s.skip(p)).len() implies lines_of(s.skip(p))[m]
                == lines.skip(a)[m] by {
                assert(lines[a + m] == (lines.take(a) + lines_of(s.skip(p)))[a + m]);
            }
        }
    }
    if b == spans.len() {
        assert(e == s.len());
        assert(s.subrange(p, e) =~= s.skip(p));
        assert(lines.subrange(a, b) =~~= lines.skip(a));
    } else {
        assert(spans[b - 1].next == spans[b].start);
        assert(b - 1 < spans.len() - 1);
        assert(s[e - 1] == '\n');
        let u = s.skip(p);
        assert(e - p > 0) by {
            assert(spans[a].start <= spans[a].end <= spans[a].next);
            if b - 1 == a {
                assert(spans[a].end < spans[a].next);
            } else {
                assert(spans[a].next == spans[a + 1].start);
                assert(spans[b - 1].start <= spans[b - 1].end < spans[b - 1].next);
                lemma_spans_monotonic(s, spans, a + 1, b - 1);
            }
        }
        assert(u[e - p - 1] == s[e - 1]);
        lemma_lines_of_split(u, e - p);
        assert(u.take(e - p) =~= s.subrange(p, e));
        assert(u.skip(e - p) =~= s.skip(e));
        // lines_of(s.skip(e)) == lines.skip(b)
        assert(lines_of(s.take(spans[b].start as int)) =~~= lines.take(b));
        lemma_lines_of_split(s, e);
        assert(lines =~~= lines.take(b) + lines_of(s.skip(e)));
        assert(lines_of(s.skip(e)) =~~= lines.skip(b)) by {
            assert(lines.take(b).len() == b);
            assert forall|m: int| 0 <= m < lines_of(s.skip(e)).len() implies lines_of(s.skip(e))[m]
                == lines.skip(b)[m] by {
                assert(lines[b + m] == (lines.take(b) + lines_of(s.skip(e)))[b + m]);
            }
        }
        assert(lines_of(u) =~~= lines.skip(a));
        assert(lines_of(u) =~~= lines_of(s.subrange(p, e)) + lines.skip(b));
        assert forall|m: int| 0 <= m < lines_of(s.subrange(p, e)).len() implies lines_of(
            s.subrange(p, e),
        )[m] == lines.subrange(a, b)[m] by {
            assert(lines.skip(a)[m] == (lines_of(s.subrange(p, e)) + lines.skip(b))[m]);
        }
        assert(lines_of(s.subrange(p, e)).len() == b - a) by {
            assert(lines.skip(a).len() == lines_of(s.subrange(p, e)).len() + lines.skip(b).len());
        }
    }
}

/// Line starts do not decrease.
pub proof fn lemma_spans_monotonic(s: Seq<char>, spans: Seq<LineSpan>, a: int, b: int)
    requires
        spans_wf(s, spans),
        0 <= a <= b < spans.len(),
    ensures
        spans[a].start <= spans[b].start,
    decreases b - a,
{
    if a < b {
        lemma_spans_monotonic(s, spans, a, b - 1);
        assert(spans[b].start == spans[b - 1].next);
        assert(spans[b - 1].start <= spans[b - 1].next);
    }
}

/// Facts about one line: fence flag, heading level, and where the heading
/// text and the trimmed line sit.
pub struct LineClass {
    pub fence: bool,
    pub level: usize,
    pub text_start: usize,
    pub text_end: usize,
    pub tstart: usize,
    pub tend: usize,
}

/// Classifies the line `v[start..end)`.
pub fn classify_line(v: &Vec<char>, start: usize, end: usize) -> (c: LineClass)
    requires
        start <= end <= v@.len(),
    ensures
        ({
            let line = v@.subrange(start as int, end as int);
            &&& c.fence == is_fence(line)
            &&& c.level as int == header_level(line)
            &&& c.level > 0 ==> start <= c.text_start <= c.text_end <= end && v@.subrange(
                c.text_start as int,
                c.text_end as int,
            ) == header_text(line)
            &&& start <= c.tstart <= c.tend <= end
            &&& (c.tstart == c.tend <==> is_blank(line))
            &&& (c.tstart < c.tend ==> v@[c.tstart as int] == line[c.tstart - start])
        }),
{
    let ghost line = v@.subrange(start as int, end as int);
    let (a, b) = trim_bounds(v, start, end);
    proof {
        lemma_trim_start_skip(line, a - start);
        assert(line.skip(a - start) =~= v@.subrange(a as int, end as int));
    }
    if a == b {
        proof {
            assert forall|i: int| 0 <= i < line.len() implies is_space(#[trigger] line[i]) by {
                assert(line[i] == v@[start + i]);
            }
            lemma_trim_start_skip(line, line.len() as int);
            assert(line.skip(line.len() as int) =~= Seq::<char>::empty());
            assert(trim_start_spec(line).len() == 0);
        }
        return LineClass { fence: false, level: 0, text_start: a, text_end: a, tstart: a, tend: b };
    }
    proof {
        let t0 = v@.subrange(a as int, end as int);
        assert(t0[0] == v@[a as int]);
        lemma_trim_start_clean(t0);
        assert(trim_start_spec(line) == t0);
        if is_blank(line) {
            assert(is_space(line[a - start]));
            assert(line[a - start] == v@[a as int]);
        }
    }
    let ghost t = trim_start_spec(line);
    let fence = end - a >= 3 && v[a] == '`' && v[a + 1] == '`' && v[a + 2] == '`';
    proof {
        assert(t.len() == end - a);
        if t.len() >= 3 {
            assert(t[0] == v@[a as int]);
            assert(t[1] == v@[a + 1]);
            assert(t[2] == v@[a + 2]);
        }
        assert(fence == is_fence(line));
    }
    let mut k: usize = 0;
    while a + k < end && v[a + k] == '#'
        invariant
            0 <= k <= end - a,
            a <= end <= v@.len(),
            forall|j: int| 0 <= j < k ==> #[trigger] v@[a + j] == '#',
        decreases end - a - k,
    {
        k = k + 1;
    }
    proof {
        assert forall|j: int| 0 <= j < k implies #[trigger] t[j] == '#' by {
            assert(t[j] == v@[a + j]);
        }
        if a + k < end {
            assert(t[k as int] == v@[a + k]);
        }
        lemma_leading_hashes_is(t, k as int);
    }
    let level: usize = if 1 <= k && k <= 3 && a + k < end && v[a + k] == ' ' {
        k
    } else {
        0
    };
    proof {
        if a + k < end {
            assert(t[k as int] == v@[a + k]);
        }
        assert(level as int == header_level(line));
    }
    if level > 0 {
        let (ts, te) = trim_bounds(v, a + k + 1, end);
        proof {
            assert(t.skip(k + 1) =~= v@.subrange(a + k + 1, end as int));
        }
        LineClass { fence, level, text_start: ts, text_end: te, tstart: a, tend: b }
    } else {
        LineClass { fence, level, text_start: a, text_end: a, tstart: a, tend: b }
    }
}

/// Looks for three backticks in a row in `v[lo..hi)`.
pub fn scan_fence(v: &Vec<char>, lo: usize, hi: usize) -> (r: bool)
    requires
        lo <= hi <= v@.len(),
    ensures
        r == has_backtick_fence(v@.subrange(lo as int, hi as int)),
{
    if hi - lo < 3 {
        return false;
    }
    let mut i = lo;
    while i <= hi - 3
        invariant
            lo <= i,
            lo + 3 <= hi <= v@.len(),
            forall|j: int|
                lo <= j < i && j + 3 <= hi ==> !(v@[j] == '`' && #[trigger] v@[j + 1] == '`' && v@[j
                    + 2] == '`'),
        decreases hi - i,
    {
        if v[i] == '`' && v[i + 1] == '`' && v[i + 2] == '`' {
            proof {
                let s = v@.subrange(lo as int, hi as int);
                assert(s[i - lo] == v@[i as int]);
                assert(s[i - lo + 1] == v@[i + 1]);
                assert(s[i - lo + 2] == v@[i + 2]);
            }
            return true;
        }
        i = i + 1;
    }
    proof {
        let s = v@.subrange(lo as int, hi as int);
        assert forall|w: int| 0 <= w && w + 3 <= s.len() implies !(s[w] == '`' && #[trigger] s[w
            + 1] == '`' && s[w + 2] == '`') by {
            assert(s[w] == v@[lo + w]);
            assert(s[w + 1] == v@[lo + w + 1]);
            assert(s[w + 2] == v@[lo + w + 2]);
        }
    }
    false
}

/// Heading context while walking a markdown document.
pub struct SectionContext {
    pub title: Option<String>,
    pub section: Option<String>,
    pub subsection: Option<String>,
}

impl SectionContext {
    /// The heading path: the headings that are set, outermost first.
    pub fn to_hierarchy(&self) -> (h: Vec<String>)
        ensures
            h@.map_values(|s: String| s@) == opt_view(self.title) + opt_view(self.section)
                + opt_view(self.subsection),
    {
        let mut h: Vec<String> = Vec::new();
        match &self.title {
            Option::Some(t) => {
                h.push(t.clone());
            },
            Option::None => {},
        }
        match &self.section {
            Option::Some(s) => {
                h.push(s.clone());
            },
            Option::None => {},
        }
        match &self.subsection {
            Option::Some(ss) => {
                h.push(ss.clone());
            },
            Option::None => {},
        }
        proof {
            assert(h@.map_values(|s: String| s@) =~= opt_view(self.title) + opt_view(self.section)
                + opt_view(self.subsection));
        }
        h
    }
}

/// What the heading context can say of itself after `li` lines: a set
/// subsection has an open third-level heading behind it, an open second-level
/// heading forces the section to be set, and a first-level heading forces the
/// title to be set.
pub open spec fn ctx_inv(lines: Seq<Seq<char>>, li: int, t: bool, s: bool, ss: bool) -> bool {
    &&& (ss ==> exists|j: int|
        0 <= j < li && #[trigger] real_heading(lines, j, 3) && (forall|m: int|
            j < m < li ==> !(#[trigger] real_heading(lines, m, 1)) && !real_heading(lines, m, 2)))
    &&& ((exists|j: int|
        0 <= j < li && #[trigger] real_heading(lines, j, 2) && (forall|m: int|
            j < m < li ==> !(#[trigger] real_heading(lines, m, 1)))) ==> s)
    &&& ((exists|j: int| 0 <= j < li && #[trigger] real_heading(lines, j, 1)) ==> t)
}

/// Under heading discipline, a context that satisfies its invariant and has a
/// subsection also has a section and a title.
pub proof fn lemma_ctx_consistent(lines: Seq<Seq<char>>, li: int, t: bool, s: bool, ss: bool)
    requires
        ctx_inv(lines, li, t, s, ss),
        heading_discipline(lines),
        ss,
    ensures
        s,
        t,
{
    let j = choose|j: int|
        0 <= j < li && #[trigger] real_heading(lines, j, 3) && (forall|m: int|
            j < m < li ==> !(#[trigger] real_heading(lines, m, 1)) && !real_heading(lines, m, 2));
    assert(real_heading(lines, j, 3));
    let j2 = choose|j2: int|
        0 <= j2 < j && #[trigger] real_heading(lines, j2, 2) && (forall|m: int|
            j2 < m < j ==> !(#[trigger] real_heading(lines, m, 1)));
    let j1 = choose|j1: int| 0 <= j1 < j && #[trigger] real_heading(lines, j1, 1);
    assert forall|m: int| j2 < m < li implies !(#[trigger] real_heading(lines, m, 1)) by {
        if m < j {
        } else if m == j {
            assert(real_heading(lines, j, 3));
        } else {
        }
    }
    assert(s);
    assert(real_heading(lines, j1, 1) && j1 < li);
    assert(t);
}

/// Prefix byte sums: `psum[i]` is the UTF-8 byte length of the first `i`
/// characters.
pub open spec fn psum_ok(v: Seq<char>, psum: Seq<usize>) -> bool {
    &&& psum.len() == v.len() + 1
    &&& forall|i: int| 0 <= i <= v.len() ==> #[trigger] psum[i] as int == byte_len(v.take(i))
}

/// Computes the prefix byte sums of the text.
pub fn byte_prefix_sums(v: &Vec<char>) -> (psum: Vec<usize>)
    requires
        4 * v@.len() < usize::MAX as int,
    ensures
        psum_ok(v@, psum@),
{
    let n = v.len();
    let mut psum: Vec<usize> = Vec::new();
    psum.push(0);
    proof {
        assert(v@.take(0) =~= Seq::<char>::empty());
    }
    let mut i: usize = 0;
    while i < n
        invariant
            0 <= i <= n,
            n == v@.len(),
            4 * n < usize::MAX as int,
            psum@.len() == i + 1,
            forall|j: int| 0 <= j <= i ==> #[trigger] psum@[j] as int == byte_len(v@.take(j)),
        decreases n - i,
    {
        let c = v[i];
        let sz = char_size_of(c);
        proof {
            lemma_byte_len_bounds(v@.take(i as int));
            assert(v@.take(i as int).push(c) =~= v@.take(i + 1));
            lemma_byte_len_push(v@.take(i as int), c);
            lemma_byte_len_bounds(v@.take(i + 1));
        }
        let next = psum[i] + sz;
        psum.push(next);
        i = i + 1;
    }
    psum
}

/// Everything the chunk-emitting helpers need of the ambient document state.
pub open spec fn md_env_ok(
    doc: Seq<char>,
    v: Seq<char>,
    spans: Seq<LineSpan>,
    psum: Seq<usize>,
) -> bool {
    &&& v == doc
    &&& spans_wf(doc, spans)
    &&& psum_ok(v, psum)
    &&& spans.len() == lines_of(doc).len()
    &&& spans.len() < 0xFFFF_0000
}

/// The discipline guarantee a caller passes down about the current context.
pub open spec fn ctx_ok(doc: Seq<char>, ctx: SectionContext) -> bool {
    &&& (heading_discipline(lines_of(doc)) ==> (ctx.subsection is Some ==> ctx.section is Some
        && ctx.title is Some))
    &&& heading_from_doc(doc, ctx.title, 1)
    &&& heading_from_doc(doc, ctx.section, 2)
    &&& heading_from_doc(doc, ctx.subsection, 3)
}

/// All chunks of the list are in order.
pub open spec fn chunks_ok(doc: Seq<char>, meta: DocMetadata, chunks: Seq<Chunk>) -> bool {
    forall|i: int| 0 <= i < chunks.len() ==> #[trigger] md_chunk_ok(doc, meta, chunks[i])
}

/// The whole-document fallback is exact. The output either is a sectioned
/// result (every chunk sound, none required), or — when sectioning emitted
/// nothing although the document is non-blank and at least the minimum size —
/// it is exactly one chunk holding the full document across all of its lines.
pub open spec fn md_fallback_ok(doc: Seq<char>, meta: DocMetadata, chunks: Seq<Chunk>) -> bool {
    exists|sectioned: Seq<Chunk>|
        #[trigger] chunks_ok(doc, meta, sectioned) && (if sectioned.len() == 0 && !is_blank(doc)
            && byte_len(doc) >= MIN_CHUNK as int {
            &&& chunks.len() == 1
            &&& chunks[0].content@ == doc
            &&& chunks[0].metadata.line_start as int == 1
            &&& chunks[0].metadata.line_end as int == lines_of(doc).len() as int
        } else {
            chunks == sectioned
        })
}

/// Emits one chunk covering lines `a .. b_excl` of the document, carrying the
/// current heading context.
#[verifier::rlimit(100)]
#[verifier::spinoff_prover]
fn emit_chunk(
    content: &str,
    v: &Vec<char>,
    spans: &Vec<LineSpan>,
    psum: &Vec<usize>,
    a: usize,
    b_excl: usize,
    ctx: &SectionContext,
    meta: &DocMetadata,
) -> (c: Chunk)
    requires
        md_env_ok(content@, v@, spans@, psum@),
        0 <= a < b_excl <= spans@.len(),
        pfence(lines_of(content@), a as int) % 2 == 0,
        pfence(lines_of(content@), b_excl as int) % 2 == 0 || b_excl == spans@.len(),
        byte_len(
            content@.subrange(spans@[a as int].start as int, spans@[b_excl - 1].next as int),
        ) >= MIN_CHUNK as int,
        ctx_ok(content@, *ctx),
    ensures
        md_chunk_ok(content@, *meta, c),
        c.content@ == content@.subrange(
            spans@[a as int].start as int,
            spans@[b_excl - 1].next as int,
        ),
        c.metadata.line_start as int == a + 1,
        c.metadata.line_end as int == b_excl as int,
{
    let start = spans[a].start;
    let endp = spans[b_excl - 1].next;
    proof {
        if a < b_excl - 1 {
            lemma_spans_monotonic(content@, spans@, a as int, b_excl - 1);
        }
        assert(start <= endp);
    }
    let sub = content.substring_char(start, endp);
    let text = String::from_str(sub);
    let hc = scan_fence(v, start, endp);
    let mut md = ChunkMetadata::new(meta);
    md = md.with_title(clone_opt_string(&ctx.title));
    md = md.with_section(clone_opt_string(&ctx.section));
    md = md.with_subsection(clone_opt_string(&ctx.subsection));
    md = md.with_lines((a + 1) as u32, b_excl as u32);
    md = md.with_code(hc);
    md.hierarchy = ctx.to_hierarchy();
    let ghost md_snapshot = md;
    let c = create_chunk(text, md);
    proof {
        lemma_window_lines(content@, spans@, a as int, b_excl as int);
        assert(md_window_ok(content@, c, a as int, b_excl - 1));
        assert(hierarchy_matches(c.metadata)) by {
            assert(c.metadata.hierarchy@ == md_snapshot.hierarchy@);
            assert(opt_view(c.metadata.title) =~~= opt_view(ctx.title));
            assert(opt_view(c.metadata.section) =~~= opt_view(ctx.section));
            assert(opt_view(c.metadata.subsection) =~~= opt_view(ctx.subsection));
        }
        assert(heading_discipline(lines_of(content@)) ==> hierarchy_consistent(c.metadata));
        assert(heading_from_doc(content@, c.metadata.title, 1)) by {
            if c.metadata.title is Some {
                assert(opt_view(c.metadata.title) =~~= opt_view(ctx.title));
                let s = ctx.title->Some_0;
                let j = choose|j: int|
                    #[trigger] real_heading(lines_of(content@), j, 1) && s@ == header_text(
                        lines_of(content@)[j],
                    );
                assert(real_heading(lines_of(content@), j, 1) && c.metadata.title->Some_0@
                    == header_text(lines_of(content@)[j]));
            }
        }
        assert(heading_from_doc(content@, c.metadata.section, 2)) by {
            if c.metadata.section is Some {
                assert(opt_view(c.metadata.section) =~~= opt_view(ctx.section));
                let s = ctx.section->Some_0;
                let j = choose|j: int|
                    #[trigger] real_heading(lines_of(content@), j, 2) && s@ == header_text(
                        lines_of(content@)[j],
                    );
                assert(real_heading(lines_of(content@), j, 2) && c.metadata.section->Some_0@
                    == header_text(lines_of(content@)[j]));
            }
        }
        assert(heading_from_doc(content@, c.metadata.subsection, 3)) by {
            if c.metadata.subsection is Some {
                assert(opt_view(c.metadata.subsection) =~~= opt_view(ctx.subsection));
                let s = ctx.subsection->Some_0;
                let j = choose|j: int|
                    #[trigger] real_heading(lines_of(content@), j, 3) && s@ == header_text(
                        lines_of(content@)[j],
                    );
                assert(real_heading(lines_of(content@), j, 3) && c.metadata.subsection->Some_0@
                    == header_text(lines_of(content@)[j]));
            }
        }
    }
    c
}

/// Header-aware chunker for markdown text.
pub struct MarkdownChunker {
    pub target_size: usize,
    pub overlap: usize,
}

impl MarkdownChunker {
    /// A chunker with the store-wide default sizes.
    pub fn new() -> (r: Self)
        ensures
            r.target_size == TARGET_SIZE,
            r.overlap == OVERLAP,
    {
        MarkdownChunker { target_size: TARGET_SIZE, overlap: OVERLAP }
    }

    /// A chunker with explicit sizes.
    pub fn with_sizes(target_size: usize, overlap: usize) -> (r: Self)
        ensures
            r.target_size == target_size,
            r.overlap == overlap,
    {
        MarkdownChunker { target_size, overlap }
    }

    /// Emits the chunks of one section (lines `a .. b_excl`): a single chunk
    /// when it fits the target size, otherwise a further line-wise split that
    /// never cuts inside a fenced code block.
    #[verifier::rlimit(60)]
    fn process_section(
        &self,
        content: &str,
        v: &Vec<char>,
        spans: &Vec<LineSpan>,
        psum: &Vec<usize>,
        a: usize,
        b_excl: usize,
        ctx: &SectionContext,
        meta: &DocMetadata,
        chunks: &mut Vec<Chunk>,
    )
        requires
            md_env_ok(content@, v@, spans@, psum@),
            0 <= a < b_excl <= spans@.len(),
            pfence(lines_of(content@), a as int) % 2 == 0,
            pfence(lines_of(content@), b_excl as int) % 2 == 0 || b_excl == spans@.len(),
            ctx_ok(content@, *ctx),
            chunks_ok(content@, *meta, old(chunks)@),
        ensures
            chunks_ok(content@, *meta, final(chunks)@),
    {
        let start = spans[a].start;
        let endp = spans[b_excl - 1].next;
        proof {
            if a < b_excl - 1 {
                lemma_spans_monotonic(content@, spans@, a as int, b_excl - 1);
            }
            lemma_byte_len_subrange(content@, start as int, endp as int);
            lemma_byte_len_bounds(content@.subrange(start as int, endp as int));
        }
        let size = psum[endp] - psum[start];
        if size <= self.target_size {
            if size >= MIN_CHUNK {
                let c = emit_chunk(content, v, spans, psum, a, b_excl, ctx, meta);
                chunks.push(c);
            }
        } else {
            self.split_large_section(content, v, spans, psum, a, b_excl, ctx, meta, chunks);
        }
    }

    /// Splits an oversized section line by line, keeping fenced code blocks
    /// whole.
    #[verifier::rlimit(100)]
    fn split_large_section(
        &self,
        content: &str,
        v: &Vec<char>,
        spans: &Vec<LineSpan>,
        psum: &Vec<usize>,
        a: usize,
        b_excl: usize,
        ctx: &SectionContext,
        meta: &DocMetadata,
        chunks: &mut Vec<Chunk>,
    )
        requires
            md_env_ok(content@, v@, spans@, psum@),
            0 <= a < b_excl <= spans@.len(),
            pfence(lines_of(content@), a as int) % 2 == 0,
            pfence(lines_of(content@), b_excl as int) % 2 == 0 || b_excl == spans@.len(),
            ctx_ok(content@, *ctx),
            chunks_ok(content@, *meta, old(chunks)@),
        ensures
            chunks_ok(content@, *meta, final(chunks)@),
    {
        let mut cstart = a;
        let mut ic = false;
        let mut lj = a;
        proof {
            lemma_in_code_parity(lines_of(content@), a as int);
        }
        while lj < b_excl
            invariant
                md_env_ok(content@, v@, spans@, psum@),
                0 <= a <= cstart <= lj <= b_excl <= spans@.len(),
                cstart < b_excl,
                ic == in_code_before(lines_of(content@), lj as int),
                pfence(lines_of(content@), cstart as int) % 2 == 0,
                pfence(lines_of(content@), b_excl as int) % 2 == 0 || b_excl == spans@.len(),
                ctx_ok(content@, *ctx),
                chunks_ok(content@, *meta, chunks@),
            decreases b_excl - lj,
        {
            let cls = classify_line(v, spans[lj].start, spans[lj].end);
            proof {
                assert(content@.subrange(
                    spans@[lj as int].start as int,
                    spans@[lj as int].end as int,
                ) == lines_of(content@)[lj as int]);
            }
            if !ic && !cls.fence {
                proof {
                    lemma_spans_monotonic(content@, spans@, cstart as int, lj as int);
                    lemma_byte_len_subrange(
                        content@,
                        spans@[cstart as int].start as int,
                        spans@[lj as int].start as int,
                    );
                    lemma_byte_len_bounds(
                        content@.subrange(
                            spans@[cstart as int].start as int,
                            spans@[lj as int].start as int,
                        ),
                    );
                    lemma_byte_len_subrange(
                        content@,
                        spans@[lj as int].start as int,
                        spans@[lj as int].next as int,
                    );
                    lemma_byte_len_bounds(
                        content@.subrange(
                            spans@[lj as int].start as int,
                            spans@[lj as int].next as int,
                        ),
                    );
                }
                let cur = psum[spans[lj].start] - psum[spans[cstart].start];
                let line_bytes = psum[spans[lj].next] - psum[spans[lj].start];
                if cur >= MIN_CHUNK && cur as u64 + line_bytes as u64 > self.target_size as u64 {
                    proof {
                        lemma_in_code_parity(lines_of(content@), lj as int);
                        assert(cstart < lj) by {
                            if cstart == lj {
                                assert(cur == 0);
                            }
                        }
                        assert(spans@[lj - 1].next == spans@[lj as int].start);
                    }
                    let c = emit_chunk(content, v, spans, psum, cstart, lj, ctx, meta);
                    chunks.push(c);
                    cstart = lj;
                }
            }
            if cls.fence {
                ic = !ic;
            }
            lj = lj + 1;
        }
        proof {
            lemma_spans_monotonic(content@, spans@, cstart as int, b_excl - 1);
            lemma_byte_len_subrange(
                content@,
                spans@[cstart as int].start as int,
                spans@[b_excl - 1].next as int,
            );
            lemma_byte_len_bounds(
                content@.subrange(
                    spans@[cstart as int].start as int,
                    spans@[b_excl - 1].next as int,
                ),
            );
        }
        let cur = psum[spans[b_excl - 1].next] - psum[spans[cstart].start];
        if cur >= MIN_CHUNK {
            let c = emit_chunk(content, v, spans, psum, cstart, b_excl, ctx, meta);
            chunks.push(c);
        }
    }

    /// Scans the leading header-only part of the document for a first-level
    /// heading, so that text standing before its title is still attributed.
    fn prescan_title(&self, content: &str, v: &Vec<char>, spans: &Vec<LineSpan>) -> (r: Option<
        String,
    >)
        requires
            v@ == content@,
            spans_wf(content@, spans@),
        ensures
            heading_from_doc(content@, r, 1),
    {
        let mut tic = false;
        let mut i: usize = 0;
        let n = spans.len();
        proof {
            assert(lines_of(content@).take(0) =~~= Seq::<Seq<char>>::empty());
        }
        while i < n
            invariant
                0 <= i <= n,
                n == spans@.len(),
                v@ == content@,
                spans_wf(content@, spans@),
                tic == in_code_before(lines_of(content@), i as int),
            decreases n - i,
        {
            let cls = classify_line(v, spans[i].start, spans[i].end);
            proof {
                assert(content@.subrange(
                    spans@[i as int].start as int,
                    spans@[i as int].end as int,
                ) == lines_of(content@)[i as int]);
            }
            if cls.fence {
                tic = !tic;
                i = i + 1;
                continue ;
            }
            if tic {
                i = i + 1;
                continue ;
            }
            if cls.level == 1 {
                let sub = content.substring_char(cls.text_start, cls.text_end);
                let r = Option::Some(String::from_str(sub));
                proof {
                    assert(real_heading(lines_of(content@), i as int, 1));
                    assert(r->Some_0@ == header_text(lines_of(content@)[i as int]));
                }
                return r;
            }
            if cls.tstart < cls.tend && !(v[cls.tstart] == '#') {
                return Option::None;
            }
            i = i + 1;
        }
        Option::None
    }

    /// Splits markdown content into header-aware chunks.
    ///
    /// Every chunk covers whole lines of the document and is at least
    /// `MIN_CHUNK` bytes; blank content yields no chunks. When the document's
    /// fenced code blocks are balanced, no chunk cuts a fence open; when its
    /// headings are disciplined, every chunk with a subsection also carries
    /// its section and title.
    #[verifier::rlimit(100)]
    #[verifier::spinoff_prover]
    pub fn chunk_markdown(&self, content: &str, metadata: &DocMetadata) -> (chunks: Vec<Chunk>)
        requires
            content@.len() < 0x4000_0000,
        ensures
            trim_spec(content@).len() == 0 ==> chunks@.len() == 0,
            !is_blank(content@) && byte_len(content@) >= MIN_CHUNK as int ==> chunks@.len() >= 1,
            chunks_ok(content@, *metadata, chunks@),
            fences_balanced(content@) ==> forall|i: int|
                0 <= i < chunks@.len() ==> fence_count(
                    lines_of(#[trigger] chunks@[i].content@),
                ) % 2 == 0,
            md_fallback_ok(content@, *metadata, chunks@),
    {
        let v = to_chars(content);
        let n = v.len();
        if range_is_blank(&v, 0, n) {
            proof {
                assert(v@.subrange(0, n as int) =~= content@);
                crate::textutil::lemma_blank_trim(content@);
            }
            let chunks: Vec<Chunk> = Vec::new();
            proof {
                assert(chunks_ok(content@, *metadata, chunks@));
                assert(md_fallback_ok(content@, *metadata, chunks@));
            }
            return chunks;
        }
        proof {
            assert(v@.subrange(0, n as int) =~= content@);
            assert(!is_blank(content@));
            lemma_trim_spec_nonblank(content@);
            lemma_lines_count(content@);
        }
        let spans = line_spans(&v);
        let psum = byte_prefix_sums(&v);
        let nlines = spans.len();
        proof {
            assert(nlines > 0) by {
                if lines_of(content@).len() == 0 {
                    assert(content@.len() == 0);
                    assert(is_blank(content@));
                }
            }
        }

        let pre_title = self.prescan_title(content, &v, &spans);
        let mut chunks: Vec<Chunk> = Vec::new();
        let mut ctx = SectionContext { title: pre_title, section: Option::None, subsection: Option::None };
        let mut sec_start: usize = 0;
        let mut in_code = false;
        let mut li: usize = 0;
        proof {
            assert(lines_of(content@).take(0) =~~= Seq::<Seq<char>>::empty());
        }
        while li < nlines
            invariant
                md_env_ok(content@, v@, spans@, psum@),
                nlines == spans@.len(),
                0 <= sec_start <= li <= nlines,
                in_code == in_code_before(lines_of(content@), li as int),
                pfence(lines_of(content@), sec_start as int) % 2 == 0,
                ctx_inv(
                    lines_of(content@),
                    li as int,
                    ctx.title is Some,
                    ctx.section is Some,
                    ctx.subsection is Some,
                ),
                heading_from_doc(content@, ctx.title, 1),
                heading_from_doc(content@, ctx.section, 2),
                heading_from_doc(content@, ctx.subsection, 3),
                chunks_ok(content@, *metadata, chunks@),
            decreases nlines - li,
        {
            let cls = classify_line(&v, spans[li].start, spans[li].end);
            proof {
                assert(content@.subrange(
                    spans@[li as int].start as int,
                    spans@[li as int].end as int,
                ) == lines_of(content@)[li as int]);
            }
            if cls.fence {
                proof {
                    lemma_step_no_heading(
                        lines_of(content@),
                        li as int,
                        ctx.title is Some,
                        ctx.section is Some,
                        ctx.subsection is Some,
                    );
                }
                in_code = !in_code;
                li = li + 1;
            } else if !in_code && cls.level >= 1 {
                // close the current section
                if li > sec_start {
                    let raw_start = spans[sec_start].start;
                    let raw_end = spans[li - 1].next;
                    proof {
                        lemma_spans_monotonic(content@, spans@, sec_start as int, li - 1);
                        lemma_in_code_parity(lines_of(content@), li as int);
                        if heading_discipline(lines_of(content@)) && ctx.subsection is Some {
                            lemma_ctx_consistent(
                                lines_of(content@),
                                li as int,
                                ctx.title is Some,
                                ctx.section is Some,
                                ctx.subsection is Some,
                            );
                        }
                    }
                    if !range_is_blank(&v, raw_start, raw_end) {
                        self.process_section(
                            content,
                            &v,
                            &spans,
                            &psum,
                            sec_start,
                            li,
                            &ctx,
                            metadata,
                            &mut chunks,
                        );
                    }
                }
                // update the heading context
                let text = String::from_str(content.substring_char(cls.text_start, cls.text_end));
                proof {
                    assert(real_heading(lines_of(content@), li as int, cls.level as int));
                    assert(text@ == header_text(lines_of(content@)[li as int]));
                }
                let ghost old_ctx = ctx;
                if cls.level == 1 {
                    ctx.title = Option::Some(text);
                    ctx.section = Option::None;
                    ctx.subsection = Option::None;
                } else if cls.level == 2 {
                    ctx.section = Option::Some(text);
                    ctx.subsection = Option::None;
                } else {
                    ctx.subsection = Option::Some(text);
                }
                proof {
                    lemma_step_heading(
                        lines_of(content@),
                        li as int,
                        cls.level as int,
                        old_ctx.title is Some,
                        old_ctx.section is Some,
                        old_ctx.subsection is Some,
                    );
                    lemma_in_code_parity(lines_of(content@), li as int);
                    lemma_pfence_step(lines_of(content@), li as int);
                    assert(!is_fence(lines_of(content@)[li as int])) by {
                        let t = trim_start_spec(lines_of(content@)[li as int]);
                        if is_fence(lines_of(content@)[li as int]) {
                            assert(t[0] == '`');
                            assert(leading_hashes(t) == 0);
                        }
                    }
                }
                sec_start = li;
                li = li + 1;
            } else {
                proof {
                    lemma_step_no_heading(
                        lines_of(content@),
                        li as int,
                        ctx.title is Some,
                        ctx.section is Some,
                        ctx.subsection is Some,
                    );
                    if !in_code {
                        assert(header_level(lines_of(content@)[li as int]) == 0);
                    }
                }
                li = li + 1;
            }
        }

        // the final section
        if nlines > sec_start {
            let raw_start = spans[sec_start].start;
            let raw_end = spans[nlines - 1].next;
            proof {
                lemma_spans_monotonic(content@, spans@, sec_start as int, nlines - 1);
                if heading_discipline(lines_of(content@)) && ctx.subsection is Some {
                    lemma_ctx_consistent(
                        lines_of(content@),
                        nlines as int,
                        ctx.title is Some,
                        ctx.section is Some,
                        ctx.subsection is Some,
                    );
                }
            }
            if !range_is_blank(&v, raw_start, raw_end) {
                self.process_section(
                    content,
                    &v,
                    &spans,
                    &psum,
                    sec_start,
                    nlines,
                    &ctx,
                    metadata,
                    &mut chunks,
                );
            }
        }

        // when nothing was large enough, one chunk holds the whole document
        let ghost sectioned = chunks@;
        if chunks.len() == 0 {
            proof {
                assert(v@.take(n as int) =~= content@);
                lemma_byte_len_bounds(content@);
                assert(psum@[n as int] as int == byte_len(content@));
            }
            let total = psum[n];
            if total >= MIN_CHUNK {
                proof {
                    assert(spans@[0].start == 0);
                    assert(content@.subrange(
                        spans@[0].start as int,
                        spans@[nlines - 1].next as int,
                    ) =~= content@);
                    assert(lines_of(content@).take(0) =~~= Seq::<Seq<char>>::empty());
                }
                let whole_ctx = SectionContext {
                    title: Option::None,
                    section: Option::None,
                    subsection: Option::None,
                };
                let c = emit_chunk(content, &v, &spans, &psum, 0, nlines, &whole_ctx, metadata);
                chunks.push(c);
                proof {
                    assert(chunks@[0] == c);
                    assert(c.content@ == content@);
                    assert(c.metadata.line_end as int == lines_of(content@).len() as int);
                }
            }
        }

        proof {
            lemma_chunks_balanced(content@, *metadata, chunks@);
            assert(chunks_ok(content@, *metadata, sectioned));
            assert(md_fallback_ok(content@, *metadata, chunks@));
        }
        chunks
    }
}

/// A line that is no heading (or stands inside code) extends every context
/// invariant by one line.
proof fn lemma_step_no_heading(lines: Seq<Seq<char>>, li: int, t: bool, s: bool, ss: bool)
    requires
        0 <= li < lines.len(),
        ctx_inv(lines, li, t, s, ss),
        !real_heading(lines, li, 1) && !real_heading(lines, li, 2) && !real_heading(lines, li, 3),
    ensures
        ctx_inv(lines, li + 1, t, s, ss),
{
    if ss {
        let j = choose|j: int|
            0 <= j < li && #[trigger] real_heading(lines, j, 3) && (forall|m: int|
                j < m < li ==> !(#[trigger] real_heading(lines, m, 1)) && !real_heading(
                    lines,
                    m,
                    2,
                ));
        assert(real_heading(lines, j, 3) && (forall|m: int|
            j < m < li + 1 ==> !(#[trigger] real_heading(lines, m, 1)) && !real_heading(
                lines,
                m,
                2,
            )));
    }
    assert forall|j: int|
        0 <= j < li + 1 && #[trigger] real_heading(lines, j, 2) && (forall|m: int|
            j < m < li + 1 ==> !(#[trigger] real_heading(lines, m, 1))) implies s by {
        assert(j != li);
        assert(forall|m: int| j < m < li ==> !(#[trigger] real_heading(lines, m, 1)));
    }
    assert forall|j: int| 0 <= j < li + 1 && #[trigger] real_heading(lines, j, 1) implies t by {
        assert(j != li);
    }
}

/// A heading line of the given level updates the context invariant the way
/// the chunker updates its context.
proof fn lemma_step_heading(lines: Seq<Seq<char>>, li: int, level: int, t: bool, s: bool, ss: bool)
    requires
        0 <= li < lines.len(),
        1 <= level <= 3,
        ctx_inv(lines, li, t, s, ss),
        real_heading(lines, li, level),
    ensures
        level == 1 ==> ctx_inv(lines, li + 1, true, false, false),
        level == 2 ==> ctx_inv(lines, li + 1, t, true, false),
        level == 3 ==> ctx_inv(lines, li + 1, t, s, true),
{
    if level == 1 {
        assert(real_heading(lines, li, 1) && li < li + 1);
        assert(ctx_inv(lines, li + 1, true, false, false)) by {
            assert forall|j: int|
                0 <= j < li + 1 && #[trigger] real_heading(lines, j, 2) && (forall|m: int|
                    j < m < li + 1 ==> !(#[trigger] real_heading(lines, m, 1))) implies false by {
                assert(!real_heading(lines, j, 2) || j < li);
                if j < li {
                    assert(j < li < li + 1);
                    assert(!real_heading(lines, li, 1));
                }
            }
        }
    } else if level == 2 {
        assert(ctx_inv(lines, li + 1, t, true, false)) by {
            assert forall|j: int| 0 <= j < li + 1 && #[trigger] real_heading(lines, j, 1) implies
                t by {
                assert(j != li);
            }
        }
    } else {
        assert(ctx_inv(lines, li + 1, t, s, true)) by {
            assert(real_heading(lines, li, 3) && (forall|m: int|
                li < m < li + 1 ==> !(#[trigger] real_heading(lines, m, 1)) && !real_heading(
                    lines,
                    m,
                    2,
                )));
            assert forall|j: int|
                0 <= j < li + 1 && #[trigger] real_heading(lines, j, 2) && (forall|m: int|
                    j < m < li + 1 ==> !(#[trigger] real_heading(lines, m, 1))) implies s by {
                assert(j != li);
                assert(forall|m: int| j < m < li ==> !(#[trigger] real_heading(lines, m, 1)));
            }
            assert forall|j: int| 0 <= j < li + 1 && #[trigger] real_heading(lines, j, 1) implies
                t by {
                assert(j != li);
            }
        }
    }
}

/// Every non-blank text has a non-empty trimmed form.
pub proof fn lemma_trim_spec_nonblank(s: Seq<char>)
    requires
        !is_blank(s),
    ensures
        trim_spec(s).len() > 0,
    decreases s.len(),
{
    let i = choose|i: int| 0 <= i < s.len() && !is_space(#[trigger] s[i]);
    if is_space(s[0]) {
        assert(!is_blank(s.drop_first())) by {
            assert(s.drop_first()[i - 1] == s[i]);
        }
        lemma_trim_spec_nonblank(s.drop_first());
    } else {
        lemma_trim_start_clean(s);
        lemma_trim_end_nonblank(s);
    }
}

/// Trimming the end of a non-blank text keeps something.
proof fn lemma_trim_end_nonblank(s: Seq<char>)
    requires
        !is_blank(s),
    ensures
        trim_end_spec_len_pos(s),
    decreases s.len(),
{
    let i = choose|i: int| 0 <= i < s.len() && !is_space(#[trigger] s[i]);
    if is_space(s.last()) {
        assert(!is_blank(s.drop_last())) by {
            assert(s.drop_last()[i] == s[i]);
            assert(i < s.len() - 1);
        }
        lemma_trim_end_nonblank(s.drop_last());
    }
}

/// Helper naming for the statement above.
pub open spec fn trim_end_spec_len_pos(s: Seq<char>) -> bool {
    crate::textutil::trim_end_spec(s).len() > 0
}

/// With balanced fences, every emitted chunk holds an even number of fence
/// lines.
proof fn lemma_chunks_balanced(doc: Seq<char>, meta: DocMetadata, chunks: Seq<Chunk>)
    requires
        chunks_ok(doc, meta, chunks),
    ensures
        fences_balanced(doc) ==> forall|i: int|
            0 <= i < chunks.len() ==> fence_count(lines_of(#[trigger] chunks[i].content@)) % 2
                == 0,
{
    if fences_balanced(doc) {
        assert forall|i: int| 0 <= i < chunks.len() implies fence_count(
            lines_of(#[trigger] chunks[i].content@),
        ) % 2 == 0 by {
            let c = chunks[i];
            assert(md_chunk_ok(doc, meta, c));
            let (a, b) = choose|a: int, b: int| #[trigger] md_window_ok(doc, c, a, b);
            let lines = lines_of(doc);
            lemma_fence_count_subrange(lines, a, b + 1);
            assert(lines.take(lines.len() as int) =~~= lines);
            let x = pfence(lines, b + 1);
            let y = pfence(lines, a);
            assert(x % 2 == 0);
            assert(y % 2 == 0);
            lemma_fundamental_div_mod(x, 2);
            lemma_fundamental_div_mod(y, 2);
            assert(x - y == 2 * (x / 2 - y / 2));
            lemma_mod_multiples_basic(x / 2 - y / 2, 2);
        }
    }
}

} // verus!
