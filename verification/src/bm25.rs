//! The keyword index: chunk texts tokenized into lowercase terms and ranked
//! with a fixed-point BM25 scoring function.
//!
//! Terms are maximal runs of letters, digits or non-ASCII characters, with
//! ASCII letters lowered. Scores are integers in millionths; the scoring
//! formula uses `k1 = 1.2` and `b = 0.75`, approximates the logarithm by its
//! base-two floor, and saturates instead of overflowing.

use crate::outside::{ascii_lower, ascii_lower_of};
use crate::score::RAW_SCORE_BOUND;
use vstd::prelude::*;
use vstd::string::StrSliceExecFns;

verus! {

/// A character that belongs to a term.
pub open spec fn is_token_char(c: char) -> bool {
    ('a' <= c && c <= 'z') || ('0' <= c && c <= '9') || ('A' <= c && c <= 'Z') || (c as u32) > 127
}

pub fn is_token_char_at(c: char) -> (r: bool)
    ensures
        r == is_token_char(c),
{
    ('a' <= c && c <= 'z') || ('0' <= c && c <= '9') || ('A' <= c && c <= 'Z') || (c as u32) > 127
}

/// Index of the first non-term character, or the length.
pub open spec fn first_nontoken(s: Seq<char>) -> int
    decreases s.len(),
{
    if s.len() == 0 {
        0
    } else if !is_token_char(s[0]) {
        0
    } else {
        1 + first_nontoken(s.drop_first())
    }
}

pub proof fn lemma_first_nontoken_bounds(s: Seq<char>)
    ensures
        0 <= first_nontoken(s) <= s.len(),
    decreases s.len(),
{
    if s.len() > 0 && is_token_char(s[0]) {
        lemma_first_nontoken_bounds(s.drop_first());
    }
}

pub proof fn lemma_first_nontoken_is(s: Seq<char>, i: int)
    requires
        0 <= i <= s.len(),
        forall|j: int| 0 <= j < i ==> is_token_char(#[trigger] s[j]),
        i < s.len() ==> !is_token_char(s[i]),
    ensures
        first_nontoken(s) == i,
    decreases i,
{
    if i == 0 {
    } else {
        assert(is_token_char(s[0]));
        lemma_first_nontoken_is(s.drop_first(), i - 1);
    }
}

/// The terms of a text: maximal runs of term characters, lowered.
pub open spec fn tokens_of(s: Seq<char>) -> Seq<Seq<char>>
    decreases s.len(),
    via tokens_of_decreases
{
    if s.len() == 0 {
        Seq::empty()
    } else if !is_token_char(s[0]) {
        tokens_of(s.drop_first())
    } else {
        let e = first_nontoken(s);
        seq![ascii_lower_of(s.take(e))] + tokens_of(s.skip(e))
    }
}

#[via_fn]
proof fn tokens_of_decreases(s: Seq<char>) {
    lemma_first_nontoken_bounds(s);
    if s.len() > 0 && is_token_char(s[0]) {
        lemma_first_nontoken_bounds(s.drop_first());
        assert(first_nontoken(s) >= 1);
    }
}

/// Splits a text into its lowercased terms.
#[verifier::loop_isolation(false)]
pub fn tokenize(s: &str) -> (r: Vec<String>)
    ensures
        r@.map_values(|t: String| t@) == tokens_of(s@),
{
    let v = crate::textutil::to_chars(s);
    let n = v.len();
    let mut r: Vec<String> = Vec::new();
    let mut pos: usize = 0;
    proof {
        assert(s@.skip(0) =~= s@);
        assert(r@.map_values(|t: String| t@) =~= Seq::<Seq<char>>::empty());
    }
    while pos < n
        invariant
            0 <= pos <= n,
            n == v@.len(),
            v@ == s@,
            r@.map_values(|t: String| t@) + tokens_of(s@.skip(pos as int)) =~= tokens_of(s@),
        decreases n - pos,
    {
        if !is_token_char_at(v[pos]) {
            proof {
                assert(s@.skip(pos as int)[0] == s@[pos as int]);
                assert(s@.skip(pos as int).drop_first() =~= s@.skip(pos + 1));
            }
            pos = pos + 1;
        } else {
            let start = pos;
            let mut q = pos;
            while q < n && is_token_char_at(v[q])
                invariant
                    pos <= q <= n,
                    forall|j: int| pos <= j < q ==> is_token_char(#[trigger] v@[j]),
                decreases n - q,
            {
                q = q + 1;
            }
            proof {
                let u = s@.skip(pos as int);
                assert forall|j: int| 0 <= j < q - pos implies is_token_char(#[trigger] u[j]) by {
                    assert(u[j] == v@[pos + j]);
                }
                if (q as int) < n as int {
                    assert(u[q - pos] == v@[q as int]);
                }
                lemma_first_nontoken_is(u, q - pos);
                assert(u.take(q - pos) =~= s@.subrange(pos as int, q as int));
                assert(u.skip(q - pos) =~= s@.skip(q as int));
            }
            let tok = ascii_lower(s.substring_char(start, q));
            let ghost pre = r@;
            r.push(tok);
            proof {
                assert(r@.map_values(|t: String| t@) =~= pre.map_values(|t: String| t@).push(
                    ascii_lower_of(s@.subrange(pos as int, q as int)),
                ));
                assert(pre.map_values(|t: String| t@).push(
                    ascii_lower_of(s@.subrange(pos as int, q as int)),
                ) + tokens_of(s@.skip(q as int)) =~= pre.map_values(|t: String| t@) + tokens_of(
                    s@.skip(pos as int),
                ));
            }
            pos = q;
        }
    }
    proof {
        assert(tokens_of(s@.skip(n as int)) =~= Seq::<Seq<char>>::empty());
        assert(r@.map_values(|t: String| t@) + Seq::<Seq<char>>::empty() =~= r@.map_values(
            |t: String| t@,
        ));
    }
    r
}

/// What a caller hands the index for one chunk.
pub struct ChunkInput {
    pub chunk_id: String,
    pub source_id: String,
    pub document_id: String,
    pub content: String,
}

/// One keyword search hit, with a fixed-point score in millionths.
pub struct BM25Result {
    pub chunk_id: String,
    pub score: i64,
}

/// One indexed chunk: its ids and its term list.
pub struct IndexedChunk {
    pub chunk_id: String,
    pub source_id: String,
    pub document_id: String,
    pub terms: Vec<String>,
}

/// How often term `t` occurs in a term list, capped at 1000.
pub open spec fn term_count(terms: Seq<String>, t: Seq<char>) -> int
    decreases terms.len(),
{
    if terms.len() == 0 {
        0
    } else {
        let prev = term_count(terms.drop_last(), t);
        if terms.last()@ == t && prev < 1000 {
            prev + 1
        } else {
            prev
        }
    }
}

/// In how many indexed chunks term `t` occurs.
pub open spec fn doc_freq(entries: Seq<IndexedChunk>, t: Seq<char>) -> int
    decreases entries.len(),
{
    if entries.len() == 0 {
        0
    } else {
        doc_freq(entries.drop_last(), t) + if term_count(entries.last().terms@, t) > 0 {
            1int
        } else {
            0
        }
    }
}

/// Total number of terms over all indexed chunks, capped per chunk at
/// 100000.
pub open spec fn total_terms(entries: Seq<IndexedChunk>) -> int
    decreases entries.len(),
{
    if entries.len() == 0 {
        0
    } else {
        total_terms(entries.drop_last()) + capped_len(entries.last().terms@.len() as int)
    }
}

/// A chunk's term count, capped at 100000.
pub open spec fn capped_len(n: int) -> int {
    if n > 100_000 {
        100_000
    } else {
        n
    }
}

/// Floor of the base-two logarithm (zero for inputs below two).
pub open spec fn log2_floor(x: int) -> int
    decreases x,
{
    if x < 2 {
        0
    } else {
        1 + log2_floor(x / 2)
    }
}

proof fn lemma_log2_floor_le(x: int, k: nat)
    requires
        x < vstd::arithmetic::power2::pow2(k + 1),
    ensures
        0 <= log2_floor(x) <= k,
    decreases x,
{
    if x >= 2 {
        vstd::arithmetic::power2::lemma_pow2_pos(k + 1);
        assert(k >= 1) by {
            if k == 0 {
                vstd::arithmetic::power2::lemma2_to64();
            }
        }
        assert(vstd::arithmetic::power2::pow2(k + 1) == 2 * vstd::arithmetic::power2::pow2(
            (((k - 1) as nat) + 1) as nat,
        )) by {
            vstd::arithmetic::power2::lemma_pow2_unfold(k + 1);
        }
        lemma_log2_floor_le(x / 2, (k - 1) as nat);
    }
}

proof fn lemma_log2_floor_bounds(x: int)
    requires
        x <= 0x10_0000_0000,
    ensures
        0 <= log2_floor(x) <= 40,
{
    vstd::arithmetic::power2::lemma2_to64();
    vstd::arithmetic::power2::lemma2_to64_rest();
    lemma_log2_floor_le(x, 40);
}

/// Computes the base-two logarithm floor.
fn log2_floor_exec(x: i64) -> (r: i64)
    requires
        0 <= x <= 0x10_0000_0000,
    ensures
        r as int == log2_floor(x as int),
        0 <= r <= 40,
{
    proof {
        lemma_log2_floor_bounds(x as int);
    }
    let mut v = x;
    let mut r: i64 = 0;
    while v >= 2
        invariant
            0 <= v <= 0x10_0000_0000,
            r as int + log2_floor(v as int) == log2_floor(x as int),
            log2_floor(x as int) <= 40,
            0 <= r <= 40,
        decreases v,
    {
        proof {
            lemma_log2_floor_bounds(v as int / 2);
        }
        v = v / 2;
        r = r + 1;
    }
    r
}

/// The score one query term contributes for one chunk, in millionths:
/// a BM25 weight with `k1 = 1.2`, `b = 0.75`, the logarithm taken as its
/// base-two floor, and the length ratio saturated.
pub open spec fn term_score(n: int, df: int, tf: int, dl: int, total: int) -> int {
    if tf <= 0 || df <= 0 {
        0
    } else {
        let idf = 693147 * (1 + log2_floor((n + 1) / df));
        let ratio0 = if total < 1 {
            0
        } else {
            750_000 * dl * n / total
        };
        let ratio = if ratio0 > 75_000_000 {
            75_000_000
        } else {
            ratio0
        };
        let den = tf * 1_000_000 + 1_200_000 * (250_000 + ratio) / 1_000_000;
        idf * (tf * 2_200_000) / den
    }
}

proof fn lemma_term_score_props(n: int, df: int, tf: int, dl: int, total: int)
    requires
        0 <= n <= 1_000_000,
        0 <= df <= n,
        0 <= tf <= 1000,
        0 <= dl <= 100_000,
        0 <= total,
    ensures
        tf >= 1 && df >= 1 ==> 1 <= term_score(n, df, tf, dl, total) <= RAW_SCORE_BOUND as int,
        tf <= 0 || df <= 0 ==> term_score(n, df, tf, dl, total) == 0,
{
    if tf >= 1 && df >= 1 {
        let q = (n + 1) / df;
        vstd::arithmetic::div_mod::lemma_div_is_ordered(0, n + 1, df);
        vstd::arithmetic::div_mod::lemma_div_is_ordered(n + 1, 0x10_0000_0000, df);
        vstd::arithmetic::div_mod::lemma_div_is_ordered_by_denominator(0x10_0000_0000, 1, df);
        lemma_log2_floor_bounds(q);
        let idf = 693147 * (1 + log2_floor(q));
        assert(693147 <= idf <= 693147 * 41) by (nonlinear_arith)
            requires
                0 <= log2_floor(q) <= 40,
                idf == 693147 * (1 + log2_floor(q)),
        ;
        let ratio0 = if total < 1 {
            0int
        } else {
            750_000 * dl * n / total
        };
        if total >= 1 {
            assert(0 <= 750_000 * dl * n <= 75_000_000_000_000_000) by (nonlinear_arith)
                requires
                    0 <= dl <= 100_000,
                    0 <= n <= 1_000_000,
            ;
            vstd::arithmetic::div_mod::lemma_div_is_ordered(0, 750_000 * dl * n, total);
        }
        let ratio = if ratio0 > 75_000_000 {
            75_000_000int
        } else {
            ratio0
        };
        assert(0 <= ratio <= 75_000_000);
        let bracket = 250_000 + ratio;
        assert(0 <= 1_200_000 * bracket <= 1_200_000 * 75_250_000) by (nonlinear_arith)
            requires
                250_000 <= bracket <= 75_250_000,
        ;
        vstd::arithmetic::div_mod::lemma_div_is_ordered(
            0,
            1_200_000 * bracket,
            1_000_000,
        );
        vstd::arithmetic::div_mod::lemma_div_is_ordered(
            1_200_000 * bracket,
            (1_200_000 * 75_250_000) as int,
            1_000_000,
        );
        assert(1_200_000 * 75_250_000 / 1_000_000 == 90_300_000) by (nonlinear_arith);
        let den = tf * 1_000_000 + 1_200_000 * bracket / 1_000_000;
        assert(1_000_000 <= tf * 1_000_000 <= 1_000_000_000) by (nonlinear_arith)
            requires
                1 <= tf <= 1000,
        ;
        assert(1_000_000 <= den <= 1_090_300_000);
        let num = tf * 2_200_000;
        assert(2_200_000 <= num <= 2_200_000_000) by (nonlinear_arith)
            requires
                1 <= tf <= 1000,
                num == tf * 2_200_000,
        ;
        assert(693147 * 2_200_000 <= idf * num <= 693147 * 41 * 2_200_000_000)
            by (nonlinear_arith)
            requires
                693147 <= idf <= 693147 * 41,
                2_200_000 <= num <= 2_200_000_000,
        ;
        assert(den <= idf * num);
        vstd::arithmetic::div_mod::lemma_div_is_ordered(den, idf * num, den);
        assert(den * 1 == den) by (nonlinear_arith);
        vstd::arithmetic::div_mod::lemma_div_multiples_vanish(1, den);
        vstd::arithmetic::div_mod::lemma_div_is_ordered_by_denominator(idf * num, 1_000_000, den);
        vstd::arithmetic::div_mod::lemma_div_is_ordered(
            idf * num,
            (693147 * 41 * 2_200_000_000) as int,
            1_000_000,
        );
        assert(693147 * 41 * 2_200_000_000 / 1_000_000 <= RAW_SCORE_BOUND as int)
            by (nonlinear_arith);
    }
}

/// Computes one term's score contribution.
fn term_score_exec(n: i64, df: i64, tf: i64, dl: i64, total: i64) -> (r: i64)
    requires
        0 <= n <= 1_000_000,
        0 <= df <= n,
        0 <= tf <= 1000,
        0 <= dl <= 100_000,
        0 <= total,
    ensures
        r as int == term_score(n as int, df as int, tf as int, dl as int, total as int),
        0 <= r <= RAW_SCORE_BOUND,
        (tf >= 1 && df >= 1) ==> r >= 1,
        (tf <= 0 || df <= 0) ==> r == 0,
{
    proof {
        lemma_term_score_props(n as int, df as int, tf as int, dl as int, total as int);
    }
    if tf <= 0 || df <= 0 {
        return 0;
    }
    let q = (n + 1) / df;
    proof {
        vstd::arithmetic::div_mod::lemma_div_is_ordered(0, n as int + 1, df as int);
        vstd::arithmetic::div_mod::lemma_div_is_ordered(n as int + 1, 0x10_0000_0000, df as int);
    }
    let idf = 693147 * (1 + log2_floor_exec(q));
    let ratio0: i64 = if total < 1 {
        0
    } else {
        proof {
            assert(0 <= 750_000 * (dl as int) * (n as int) <= 75_000_000_000_000_000)
                by (nonlinear_arith)
                requires
                    0 <= dl as int <= 100_000,
                    0 <= n as int <= 1_000_000,
            ;
            vstd::arithmetic::div_mod::lemma_div_is_ordered(
                0,
                750_000 * (dl as int) * (n as int),
                total as int,
            );
            vstd::arithmetic::div_mod::lemma_div_is_ordered(
                750_000 * (dl as int) * (n as int),
                75_000_000_000_000_000,
                total as int,
            );
        }
        750_000 * dl * n / total
    };
    let ratio: i64 = if ratio0 > 75_000_000 {
        75_000_000
    } else {
        ratio0
    };
    proof {
        assert(0 <= 1_200_000 * (250_000 + ratio as int) <= 1_200_000 * 75_250_000)
            by (nonlinear_arith)
            requires
                0 <= ratio as int <= 75_000_000,
        ;
        vstd::arithmetic::div_mod::lemma_div_is_ordered(
            0,
            1_200_000 * (250_000 + ratio as int),
            1_000_000,
        );
        vstd::arithmetic::div_mod::lemma_div_is_ordered(
            1_200_000 * (250_000 + ratio as int),
            (1_200_000 * 75_250_000) as int,
            1_000_000,
        );
        assert(1_200_000 * 75_250_000 / 1_000_000 == 90_300_000) by (nonlinear_arith);
        assert(0 <= (tf as int) * 1_000_000 <= 1_000_000_000) by (nonlinear_arith)
            requires
                0 <= tf as int <= 1000,
        ;
        assert(0 <= (tf as int) * 2_200_000 <= 2_200_000_000) by (nonlinear_arith)
            requires
                0 <= tf as int <= 1000,
        ;
        assert(0 <= (idf as int) * ((tf as int) * 2_200_000) <= 693147 * 41 * 2_200_000_000)
            by (nonlinear_arith)
            requires
                0 <= idf as int <= 693147 * 41,
                0 <= (tf as int) * 2_200_000 <= 2_200_000_000,
        ;
    }
    let den = tf * 1_000_000 + 1_200_000 * (250_000 + ratio) / 1_000_000;
    let num = tf * 2_200_000;
    proof {
        vstd::arithmetic::div_mod::lemma_div_is_ordered(
            0,
            (idf as int) * (num as int),
            den as int,
        );
        vstd::arithmetic::div_mod::lemma_div_is_ordered(
            (idf as int) * (num as int),
            (693147 * 41 * 2_200_000_000) as int,
            den as int,
        );
        vstd::arithmetic::div_mod::lemma_div_is_ordered_by_denominator(
            (693147 * 41 * 2_200_000_000) as int,
            1,
            den as int,
        );
    }
    idf * num / den
}

/// The saturating sum of the term scores a chunk earns for a query.
pub open spec fn bm25_acc(
    entries: Seq<IndexedChunk>,
    terms: Seq<String>,
    qtoks: Seq<Seq<char>>,
) -> int
    decreases qtoks.len(),
{
    if qtoks.len() == 0 {
        0
    } else {
        let prev = bm25_acc(entries, terms, qtoks.drop_last());
        let t = term_score(
            entries.len() as int,
            doc_freq(entries, qtoks.last()),
            term_count(terms, qtoks.last()),
            capped_len(terms.len() as int),
            total_terms(entries),
        );
        if prev + t > RAW_SCORE_BOUND as int {
            RAW_SCORE_BOUND as int
        } else {
            prev + t
        }
    }
}

/// The inverted keyword index.
pub struct BM25Index {
    pub entries: Vec<IndexedChunk>,
}

impl BM25Index {
    /// No two entries share a chunk id.
    pub open spec fn wf(self) -> bool {
        forall|i: int, j: int|
            0 <= i < j < self.entries@.len() ==> (#[trigger] self.entries@[i]).chunk_id@
                != (#[trigger] self.entries@[j]).chunk_id@
    }

    /// Some entry has this chunk id.
    pub open spec fn has_entry(self, id: Seq<char>) -> bool {
        exists|i: int|
            0 <= i < self.entries@.len() && (#[trigger] self.entries@[i]).chunk_id@ == id
    }

    /// Some entry carries this source.
    pub open spec fn has_entry_source(self, sid: Seq<char>) -> bool {
        exists|i: int|
            0 <= i < self.entries@.len() && (#[trigger] self.entries@[i]).source_id@ == sid
    }

    /// A fresh, empty index.
    pub fn new() -> (r: Self)
        ensures
            r.wf(),
            r.entries@.len() == 0,
    {
        BM25Index { entries: Vec::new() }
    }

    fn entry_exists(&self, id: &String) -> (r: bool)
        ensures
            r == self.has_entry(id@),
    {
        let n = self.entries.len();
        let mut i: usize = 0;
        while i < n
            invariant
                0 <= i <= n,
                n == self.entries@.len(),
                forall|j: int| 0 <= j < i ==> (#[trigger] self.entries@[j]).chunk_id@ != id@,
            decreases n - i,
        {
            if self.entries[i].chunk_id == *id {
                return true;
            }
            i = i + 1;
        }
        false
    }

    /// Adds one chunk to the index: its text is tokenized into lowercased
    /// terms. A chunk id that is already indexed is skipped.
    pub fn index(&mut self, input: ChunkInput)
        requires
            old(self).wf(),
        ensures
            final(self).wf(),
            old(self).has_entry(input.chunk_id@) ==> *final(self) == *old(self),
            !old(self).has_entry(input.chunk_id@) ==> final(self).entries@.len() == old(
                self,
            ).entries@.len() + 1 && final(self).entries@.take(old(self).entries@.len() as int)
                == old(self).entries@ && ({
                let e = final(self).entries@.last();
                &&& e.chunk_id@ == input.chunk_id@
                &&& e.source_id@ == input.source_id@
                &&& e.document_id@ == input.document_id@
                &&& e.terms@.map_values(|t: String| t@) == tokens_of(input.content@)
            }),
    {
        if self.entry_exists(&input.chunk_id) {
            return ;
        }
        let terms = tokenize(input.content.as_str());
        let ghost pre = self.entries@;
        self.entries.push(
            IndexedChunk {
                chunk_id: input.chunk_id,
                source_id: input.source_id,
                document_id: input.document_id,
                terms,
            },
        );
        proof {
            assert(self.entries@.take(pre.len() as int) =~= pre);
            assert forall|i: int, j: int|
                0 <= i < j < self.entries@.len() implies (#[trigger] self.entries@[i]).chunk_id@
                != (#[trigger] self.entries@[j]).chunk_id@ by {
                if j == self.entries@.len() - 1 {
                    assert(self.entries@[i] == pre[i]);
                } else {
                    assert(self.entries@[i] == pre[i] && self.entries@[j] == pre[j]);
                }
            }
        }
    }

    /// Removes every entry of a source.
    pub fn delete_source(&mut self, source_id: &str)
        requires
            old(self).wf(),
        ensures
            final(self).wf(),
            final(self).entries@ == old(self).entries@.filter(
                |e: IndexedChunk| e.source_id@ != source_id@,
            ),
            !final(self).has_entry_source(source_id@),
    {
        let ghost orig = self.entries@;
        let n = self.entries.len();
        let mut kept: Vec<IndexedChunk> = Vec::new();
        let mut i: usize = 0;
        while i < n
            invariant
                0 <= i <= n,
                n == orig.len(),
                self.entries@ == orig.skip(i as int),
                kept@ == orig.take(i as int).filter(
                    |e: IndexedChunk| e.source_id@ != source_id@,
                ),
            decreases n - i,
        {
            let e = self.entries.remove(0);
            proof {
                reveal(Seq::filter);
                assert(orig.skip(i as int)[0] == orig[i as int]);
                assert(orig.skip(i as int).remove(0) =~= orig.skip(i + 1));
                assert(orig.take(i + 1).drop_last() =~= orig.take(i as int));
                assert(orig.take(i + 1).last() == orig[i as int]);
            }
            if !crate::textutil::str_eq(e.source_id.as_str(), source_id) {
                kept.push(e);
            }
            i = i + 1;
        }
        self.entries = kept;
        proof {
            assert(orig.take(n as int) =~= orig);
            let pred = |e: IndexedChunk| e.source_id@ != source_id@;
            assert forall|p: int, q: int|
                0 <= p < q < self.entries@.len() implies (#[trigger] self.entries@[p]).chunk_id@
                != (#[trigger] self.entries@[q]).chunk_id@ by {
                lemma_filter_entries_distinct(orig, pred, p, q);
            }
            assert forall|p: int|
                0 <= p < self.entries@.len() implies (#[trigger] self.entries@[p]).source_id@
                != source_id@ by {
                orig.lemma_filter_pred(pred, p);
            }
        }
    }

    /// How many entries of the prefix earn a positive score for the query,
    /// with statistics taken over `all`.
    pub open spec fn count_positive(
        entries: Seq<IndexedChunk>,
        all: Seq<IndexedChunk>,
        qtoks: Seq<Seq<char>>,
    ) -> int
        decreases entries.len(),
    {
        if entries.len() == 0 {
            0
        } else {
            Self::count_positive(entries.drop_last(), all, qtoks) + if bm25_acc(
                all,
                entries.last().terms@,
                qtoks,
            ) > 0 {
                1int
            } else {
                0
            }
        }
    }

    /// Everything a keyword search promises: each hit is a stored entry's
    /// saturated score sum, positive and in range, sorted best first with
    /// distinct ids, as many as the limit allows.
    pub open spec fn search_post(
        idx: BM25Index,
        qtoks: Seq<Seq<char>>,
        limit: int,
        r: Seq<BM25Result>,
    ) -> bool {
        &&& forall|m: int|
            0 <= m < r.len() ==> exists|i: int|
                0 <= i < idx.entries@.len() && (#[trigger] r[m]).chunk_id@
                    == (#[trigger] idx.entries@[i]).chunk_id@ && r[m].score as int == bm25_acc(
                    idx.entries@,
                    idx.entries@[i].terms@,
                    qtoks,
                )
        &&& forall|m: int| 0 <= m < r.len() ==> 0 < (#[trigger] r[m]).score <= RAW_SCORE_BOUND
        &&& forall|m1: int, m2: int|
            0 <= m1 < m2 < r.len() ==> (#[trigger] r[m1]).score >= (#[trigger] r[m2]).score
        &&& forall|m1: int, m2: int|
            0 <= m1 < m2 < r.len() ==> (#[trigger] r[m1]).chunk_id@ != (#[trigger] r[m2]).chunk_id@
        &&& r.len() == if Self::count_positive(idx.entries@, idx.entries@, qtoks) <= limit {
            Self::count_positive(idx.entries@, idx.entries@, qtoks)
        } else {
            limit
        }
    }

    /// BM25-ranked keyword search: every chunk with a positive score for the
    /// query's terms, best first, up to the limit.
    #[verifier::loop_isolation(false)]
    #[verifier::rlimit(100)]
    pub fn search(&self, query: &str, limit: usize) -> (r: Vec<BM25Result>)
        requires
            self.wf(),
            self.entries@.len() <= 1_000_000,
        ensures
            Self::search_post(*self, tokens_of(query@), limit as int, r@),
    {
        let qv = tokenize(query);
        let ghost qtoks = tokens_of(query@);
        let nq = qv.len();
        let n = self.entries.len();
        // global statistics
        let mut total: i64 = 0;
        let mut i: usize = 0;
        proof {
            assert(self.entries@.take(0) =~= Seq::<IndexedChunk>::empty());
        }
        while i < n
            invariant
                0 <= i <= n,
                total as int == total_terms(self.entries@.take(i as int)),
                0 <= total <= (i as int) * 100_000,
            decreases n - i,
        {
            proof {
                assert(self.entries@.take(i + 1).drop_last() =~= self.entries@.take(i as int));
                assert(self.entries@.take(i + 1).last() == self.entries@[i as int]);
                assert((i as int + 1) * 100_000 == (i as int) * 100_000 + 100_000)
                    by (nonlinear_arith);
                assert((i as int) * 100_000 <= 100_000_000_000) by (nonlinear_arith)
                    requires
                        0 <= i as int <= 1_000_000,
                ;
            }
            let tl = self.entries[i].terms.len();
            let dl: i64 = if tl > 100_000 {
                100_000
            } else {
                tl as i64
            };
            total = total + dl;
            i = i + 1;
        }
        proof {
            assert(self.entries@.take(n as int) =~= self.entries@);
        }
        // per-term document frequencies
        let mut dfs: Vec<i64> = Vec::new();
        let mut k: usize = 0;
        while k < nq
            invariant
                0 <= k <= nq,
                dfs@.len() == k,
                forall|kk: int|
                    0 <= kk < k ==> #[trigger] dfs@[kk] as int == doc_freq(
                        self.entries@,
                        qv@.map_values(|t: String| t@)[kk],
                    ) && 0 <= dfs@[kk] <= n,
            decreases nq - k,
        {
            let mut df: i64 = 0;
            let mut i2: usize = 0;
            proof {
                assert(self.entries@.take(0) =~= Seq::<IndexedChunk>::empty());
            }
            while i2 < n
                invariant
                    0 <= i2 <= n,
                    k < nq,
                    df as int == doc_freq(
                        self.entries@.take(i2 as int),
                        qv@.map_values(|t: String| t@)[k as int],
                    ),
                    0 <= df <= i2,
                decreases n - i2,
            {
                proof {
                    assert(self.entries@.take(i2 + 1).drop_last() =~= self.entries@.take(
                        i2 as int,
                    ));
                    assert(self.entries@.take(i2 + 1).last() == self.entries@[i2 as int]);
                }
                let tf = term_count_of(&self.entries[i2].terms, &qv[k]);
                if tf > 0 {
                    df = df + 1;
                }
                i2 = i2 + 1;
            }
            proof {
                assert(self.entries@.take(n as int) =~= self.entries@);
            }
            dfs.push(df);
            k = k + 1;
        }
        // score every entry
        let mut scored: Vec<(String, i64)> = Vec::new();
        let mut i3: usize = 0;
        proof {
            assert(self.entries@.take(0) =~= Seq::<IndexedChunk>::empty());
        }
        while i3 < n
            invariant
                0 <= i3 <= n,
                scored@.len() == Self::count_positive(
                    self.entries@.take(i3 as int),
                    self.entries@,
                    qtoks,
                ),
                forall|m: int|
                    0 <= m < scored@.len() ==> exists|j: int|
                        0 <= j < i3 && (#[trigger] scored@[m]).0@ == (
                        #[trigger] self.entries@[j]).chunk_id@ && scored@[m].1 as int == bm25_acc(
                            self.entries@,
                            self.entries@[j].terms@,
                            qtoks,
                        ),
                forall|m: int| 0 <= m < scored@.len() ==> 0 < (#[trigger] scored@[m]).1
                    <= RAW_SCORE_BOUND,
                crate::score::distinct_ids(scored@),
            decreases n - i3,
        {
            proof {
                assert(self.entries@.take(i3 + 1).drop_last() =~= self.entries@.take(i3 as int));
                assert(self.entries@.take(i3 + 1).last() == self.entries@[i3 as int]);
            }
            let tl = self.entries[i3].terms.len();
            let dl: i64 = if tl > 100_000 {
                100_000
            } else {
                tl as i64
            };
            let mut acc: i64 = 0;
            let mut k2: usize = 0;
            proof {
                assert(qtoks.take(0) =~= Seq::<Seq<char>>::empty());
            }
            while k2 < nq
                invariant
                    0 <= k2 <= nq,
                    i3 < n,
                    acc as int == bm25_acc(
                        self.entries@,
                        self.entries@[i3 as int].terms@,
                        qtoks.take(k2 as int),
                    ),
                    0 <= acc <= RAW_SCORE_BOUND,
                decreases nq - k2,
            {
                proof {
                    assert(qtoks.take(k2 + 1).drop_last() =~= qtoks.take(k2 as int));
                    assert(qtoks.take(k2 + 1).last() == qtoks[k2 as int]);
                    assert(qv@.map_values(|t: String| t@)[k2 as int] == qtoks[k2 as int]);
                }
                let tf = term_count_of(&self.entries[i3].terms, &qv[k2]);
                let term = term_score_exec(n as i64, dfs[k2], tf, dl, total);
                acc = if acc > RAW_SCORE_BOUND - term {
                    RAW_SCORE_BOUND
                } else {
                    acc + term
                };
                k2 = k2 + 1;
            }
            proof {
                assert(qtoks.take(nq as int) =~= qtoks);
            }
            if acc > 0 {
                let ghost pre = scored@;
                let id = self.entries[i3].chunk_id.clone();
                scored.push((id, acc));
                proof {
                    assert forall|m1: int, m2: int|
                        0 <= m1 < m2 < scored@.len() implies (#[trigger] scored@[m1].0@) != (
                        #[trigger] scored@[m2].0@) by {
                        if m2 == scored@.len() - 1 {
                            assert(scored@[m1] == pre[m1]);
                            let j = choose|j: int|
                                0 <= j < i3 && (#[trigger] pre[m1]).0@
                                    == (#[trigger] self.entries@[j]).chunk_id@ && pre[m1].1 as int
                                    == bm25_acc(self.entries@, self.entries@[j].terms@, qtoks);
                            assert(self.entries@[j].chunk_id@
                                != self.entries@[i3 as int].chunk_id@);
                        } else {
                            assert(scored@[m1] == pre[m1] && scored@[m2] == pre[m2]);
                        }
                    }
                }
            }
            i3 = i3 + 1;
        }
        proof {
            assert(self.entries@.take(n as int) =~= self.entries@);
        }
        // order by score and cut to the limit
        let ghost unsorted = scored@;
        crate::score::sort_pairs_by_score_desc(&mut scored);
        proof {
            crate::score::lemma_permutation_distinct_ids(unsorted, scored@);
            unsorted.to_multiset_ensures();
            scored@.to_multiset_ensures();
            assert forall|m: int| 0 <= m < scored@.len() implies (exists|j: int|
                0 <= j < self.entries@.len() && (#[trigger] scored@[m]).0@
                    == (#[trigger] self.entries@[j]).chunk_id@ && scored@[m].1 as int == bm25_acc(
                    self.entries@,
                    self.entries@[j].terms@,
                    qtoks,
                )) && 0 < scored@[m].1 <= RAW_SCORE_BOUND by {
                assert(scored@.contains(scored@[m]));
                assert(scored@.to_multiset().count(scored@[m]) > 0);
                assert(unsorted.to_multiset().count(scored@[m]) > 0);
                assert(unsorted.contains(scored@[m]));
                let w = choose|w: int| 0 <= w < unsorted.len() && unsorted[w] == scored@[m];
            }
        }
        let ghost sorted_all = scored@;
        scored.truncate(limit);
        proof {
            if limit as int <= sorted_all.len() {
                assert(scored@ == sorted_all.subrange(0, limit as int));
            }
        }
        // package the results
        let mut scored = scored;
        let mut r: Vec<BM25Result> = Vec::new();
        let ghost cut = scored@;
        let nr = scored.len();
        let mut m: usize = 0;
        while m < nr
            invariant
                0 <= m <= nr,
                nr == cut.len(),
                scored@ == cut.skip(m as int),
                r@.len() == m,
                forall|mm: int|
                    0 <= mm < m ==> (#[trigger] r@[mm]).chunk_id@ == cut[mm].0@
                        && r@[mm].score == cut[mm].1,
            decreases nr - m,
        {
            let p = scored.remove(0);
            proof {
                assert(cut.skip(m as int)[0] == cut[m as int]);
                assert(cut.skip(m as int).remove(0) =~= cut.skip(m + 1));
            }
            r.push(BM25Result { chunk_id: p.0, score: p.1 });
            m = m + 1;
        }
        r
    }

    /// Drops every entry.
    pub fn reset(&mut self)
        ensures
            final(self).wf(),
            final(self).entries@.len() == 0,
    {
        self.entries.clear();
    }
}

/// Counts how often a term occurs in a term list, capped at 1000.
fn term_count_of(terms: &Vec<String>, t: &String) -> (r: i64)
    ensures
        r as int == term_count(terms@, t@),
        0 <= r <= 1000,
        (r > 0) == (term_count(terms@, t@) > 0),
{
    let n = terms.len();
    let mut r: i64 = 0;
    let mut i: usize = 0;
    proof {
        assert(terms@.take(0) =~= Seq::<String>::empty());
    }
    while i < n
        invariant
            0 <= i <= n,
            n == terms@.len(),
            r as int == term_count(terms@.take(i as int), t@),
            0 <= r <= 1000,
        decreases n - i,
    {
        proof {
            assert(terms@.take(i + 1).drop_last() =~= terms@.take(i as int));
            assert(terms@.take(i + 1).last() == terms@[i as int]);
        }
        if r < 1000 && crate::textutil::str_eq(terms[i].as_str(), t.as_str()) {
            r = r + 1;
        }
        i = i + 1;
    }
    proof {
        assert(terms@.take(n as int) =~= terms@);
    }
    r
}

/// Two positions of a filtered entry list keep distinct chunk ids.
proof fn lemma_filter_entries_distinct(
    s: Seq<IndexedChunk>,
    pred: spec_fn(IndexedChunk) -> bool,
    p: int,
    q: int,
)
    requires
        forall|i: int, j: int|
            0 <= i < j < s.len() ==> (#[trigger] s[i]).chunk_id@ != (#[trigger] s[j]).chunk_id@,
        0 <= p < q < s.filter(pred).len(),
    ensures
        s.filter(pred)[p].chunk_id@ != s.filter(pred)[q].chunk_id@,
    decreases s.len(),
{
    reveal(Seq::filter);
    if s.len() > 0 {
        let f = s.filter(pred);
        let sub = s.drop_last().filter(pred);
        assert(forall|i: int, j: int|
            0 <= i < j < s.drop_last().len() ==> (#[trigger] s.drop_last()[i]).chunk_id@
                != (#[trigger] s.drop_last()[j]).chunk_id@);
        if pred(s.last()) && q == f.len() - 1 {
            assert(f[q] == s.last());
            assert(f[p] == sub[p]);
            lemma_filter_entry_subset(s.drop_last(), pred, p);
            let w = choose|w: int| 0 <= w < s.drop_last().len() && s.drop_last()[w] == sub[p];
            assert(s[w] == sub[p] && 0 <= w < s.len() - 1);
            assert(s[w].chunk_id@ != s[s.len() - 1].chunk_id@);
        } else {
            assert(f[p] == sub[p] && f[q] == sub[q]);
            lemma_filter_entries_distinct(s.drop_last(), pred, p, q);
        }
    }
}

proof fn lemma_filter_entry_subset(s: Seq<IndexedChunk>, pred: spec_fn(IndexedChunk) -> bool, m: int)
    requires
        0 <= m < s.filter(pred).len(),
    ensures
        s.contains(s.filter(pred)[m]),
    decreases s.len(),
{
    reveal(Seq::filter);
    if s.len() > 0 {
        let f = s.filter(pred);
        let sub = s.drop_last().filter(pred);
        if pred(s.last()) && m == f.len() - 1 {
            assert(f[m] == s.last());
            assert(s[s.len() - 1] == s.last());
        } else {
            assert(f[m] == sub[m]);
            lemma_filter_entry_subset(s.drop_last(), pred, m);
            let j = choose|j: int| 0 <= j < s.drop_last().len() && s.drop_last()[j] == sub[m];
            assert(s[j] == sub[m]);
        }
    }
}

} // verus!
