//! The vector index: document records, and chunk records with
//! fixed-dimension embeddings, searched by dot product over unit-length
//! fixed-point vectors.
//!
//! Embedding components are fixed-point numbers in millionths, like scores;
//! the vectors handed in are unit length, so their dot product is the cosine
//! similarity. Every stored vector has the index's dimension, and no two
//! stored chunks share a content hash.

use crate::score::{valid_raw_score, RAW_SCORE_BOUND, SCORE_SCALE};
use crate::types::{ChunkMeta, DocumentMeta, DocumentRecord, Source};
use vstd::prelude::*;
use vstd::string::StringExecFns;

verus! {

/// Highest embedding dimension the index accepts.
pub const MAX_DIM: usize = 8192;

/// Greatest number of rows a query returns when no limit is given.
pub const DEFAULT_QUERY_LIMIT: usize = 10;

/// Limit to use when every row is wanted.
pub const MAX_QUERY_LIMIT: usize = 1_000_000;

/// Chunk metadata for insertion; the text lives in the content store.
pub struct ChunkRecord {
    pub id: String,
    pub document_id: String,
    pub source_id: String,
    pub title: Option<String>,
    pub file_path: Option<String>,
    pub line_start: Option<u32>,
    pub line_end: Option<u32>,
    pub content_hash: String,
    pub section: Option<String>,
    pub subsection: Option<String>,
    pub hierarchy: Vec<String>,
    pub has_code: bool,
}

/// A stored chunk: its record and its embedding.
pub struct StoredChunk {
    pub record: ChunkRecord,
    pub vector: Vec<i64>,
}

/// Escapes a string for use inside a single-quoted predicate: every embedded
/// single quote is doubled.
pub open spec fn escaped(s: Seq<char>) -> Seq<char>
    decreases s.len(),
{
    if s.len() == 0 {
        s
    } else if s.last() == '\'' {
        escaped(s.drop_last()) + seq!['\'', '\'']
    } else {
        escaped(s.drop_last()) + seq![s.last()]
    }
}

/// Doubles every single quote of the input, leaving all else unchanged.
pub fn escape_sql(s: &str) -> (r: String)
    ensures
        r@ == escaped(s@),
{
    proof {
        reveal_strlit("''");
    }
    let v = crate::textutil::to_chars(s);
    let n = v.len();
    let mut r = String::new();
    let mut i: usize = 0;
    while i < n
        invariant
            0 <= i <= n,
            n == v@.len(),
            v@ == s@,
            r@ == escaped(s@.take(i as int)),
        decreases n - i,
    {
        proof {
            reveal_strlit("''");
            assert(s@.take(i + 1).drop_last() =~= s@.take(i as int));
            assert(s@.take(i + 1).last() == s@[i as int]);
        }
        if v[i] == '\'' {
            r.append("''");
            proof {
                assert(r@ =~= escaped(s@.take(i + 1)));
            }
        } else {
            let one = s.substring_char(i, i + 1);
            r.append(one);
            proof {
                assert(one@ =~= seq![s@[i as int]]);
                assert(r@ =~= escaped(s@.take(i + 1)));
            }
        }
        i = i + 1;
    }
    proof {
        assert(s@.take(n as int) =~= s@);
    }
    r
}

/// The dot product of two fixed-point vectors, in millionth-squared units.
pub open spec fn dot(a: Seq<i64>, b: Seq<i64>) -> int
    decreases a.len(),
{
    if a.len() == 0 || b.len() == 0 {
        0
    } else {
        dot(a.drop_last(), b.drop_last()) + (a.last() as int) * (b.last() as int)
    }
}

/// Components of a fixed-point vector stay within one unit.
pub open spec fn vec_in_range(v: Seq<i64>) -> bool {
    forall|i: int|
        0 <= i < v.len() ==> -(SCORE_SCALE as int) <= #[trigger] v[i] as int <= SCORE_SCALE as int
}

/// The similarity score of a query and a stored vector, in millionths;
/// the quotient is truncated toward zero.
pub open spec fn score_of(q: Seq<i64>, v: Seq<i64>) -> int {
    if dot(q, v) >= 0 {
        dot(q, v) / (SCORE_SCALE as int)
    } else {
        -((-dot(q, v)) / (SCORE_SCALE as int))
    }
}

/// Computes the similarity score of two unit-range vectors.
fn dot_score(q: &Vec<i64>, v: &Vec<i64>) -> (r: i64)
    requires
        q@.len() == v@.len() <= MAX_DIM,
        vec_in_range(q@),
        vec_in_range(v@),
    ensures
        r as int == score_of(q@, v@),
        valid_raw_score(r as int),
{
    let n = q.len();
    let mut acc: i64 = 0;
    let mut i: usize = 0;
    while i < n
        invariant
            0 <= i <= n,
            n == q@.len() == v@.len(),
            n <= MAX_DIM,
            vec_in_range(q@),
            vec_in_range(v@),
            acc as int == dot(q@.take(i as int), v@.take(i as int)),
            -(i as int) * (SCORE_SCALE as int) * (SCORE_SCALE as int) <= acc as int <= (i as int)
                * (SCORE_SCALE as int) * (SCORE_SCALE as int),
        decreases n - i,
    {
        proof {
            assert(q@.take(i + 1).drop_last() =~= q@.take(i as int));
            assert(v@.take(i + 1).drop_last() =~= v@.take(i as int));
            assert(q@.take(i + 1).last() == q@[i as int]);
            assert(v@.take(i + 1).last() == v@[i as int]);
            let s = SCORE_SCALE as int;
            let x = q@[i as int] as int;
            let y = v@[i as int] as int;
            assert(-(s * s) <= x * y <= s * s) by (nonlinear_arith)
                requires
                    -s <= x <= s,
                    -s <= y <= s,
                    s == 1_000_000,
            ;
            assert((i + 1) * s * s == (i as int) * s * s + s * s) by (nonlinear_arith);
            assert((i as int) * s * s <= 8192 * s * s) by (nonlinear_arith)
                requires
                    0 <= i as int <= 8192,
                    s == 1_000_000,
            ;
        }
        acc = acc + q[i] * v[i];
        i = i + 1;
    }
    proof {
        assert(q@.take(n as int) =~= q@);
        assert(v@.take(n as int) =~= v@);
        let s = SCORE_SCALE as int;
        assert((n as int) * s * s <= 8192 * s * s) by (nonlinear_arith)
            requires
                0 <= n as int <= 8192,
                s == 1_000_000,
        ;
        assert(8192 * s * s == s * (8192 * s)) by (nonlinear_arith);
        vstd::arithmetic::div_mod::lemma_div_multiples_vanish(8192 * s, s);
        if acc >= 0 {
            vstd::arithmetic::div_mod::lemma_div_is_ordered(acc as int, 8192 * s * s, s);
        } else {
            vstd::arithmetic::div_mod::lemma_div_is_ordered(-(acc as int), 8192 * s * s, s);
        }
    }
    if acc >= 0 {
        acc / SCORE_SCALE
    } else {
        -((-acc) / SCORE_SCALE)
    }
}


/// A stored chunk passes a source filter.
pub open spec fn chunk_matches_src(c: StoredChunk, src: Option<Seq<char>>) -> bool {
    match src {
        Option::Some(s) => c.record.source_id@ == s,
        Option::None => true,
    }
}

/// The view of an optional source filter.
pub open spec fn src_view(s: Option<&String>) -> Option<Seq<char>> {
    match s {
        Option::Some(x) => Option::Some(x@),
        Option::None => Option::None,
    }
}

/// Search hits are ordered by score, highest first.
pub open spec fn metas_sorted_desc(s: Seq<ChunkMeta>) -> bool {
    forall|i: int, j: int| 0 <= i < j < s.len() ==> #[trigger] s[i].score >= #[trigger] s[j].score
}

/// No two search hits share an id.
pub open spec fn metas_distinct_ids(s: Seq<ChunkMeta>) -> bool {
    forall|i: int, j: int| 0 <= i < j < s.len() ==> #[trigger] s[i].id@ != #[trigger] s[j].id@
}

/// A permutation of hits with distinct ids again has distinct ids.
pub proof fn lemma_meta_permutation_distinct_ids(a: Seq<ChunkMeta>, b: Seq<ChunkMeta>)
    requires
        a.to_multiset() == b.to_multiset(),
        metas_distinct_ids(a),
    ensures
        metas_distinct_ids(b),
{
    broadcast use vstd::seq_lib::group_to_multiset_ensures;
    broadcast use vstd::multiset::group_multiset_axioms;

    assert(a.no_duplicates()) by {
        assert forall|i: int, j: int|
            0 <= i < a.len() && 0 <= j < a.len() && i != j implies a[i] != a[j] by {
            if i < j {
                assert(a[i].id@ != a[j].id@);
            } else {
                assert(a[j].id@ != a[i].id@);
            }
        }
    }
    a.lemma_multiset_has_no_duplicates();
    b.lemma_multiset_has_no_duplicates_conv();
    assert forall|i: int, j: int| 0 <= i < j < b.len() implies #[trigger] b[i].id@
        != #[trigger] b[j].id@ by {
        if b[i].id@ == b[j].id@ {
            assert(b.contains(b[i]));
            assert(b.contains(b[j]));
            assert(b.to_multiset().count(b[i]) > 0);
            assert(b.to_multiset().count(b[j]) > 0);
            assert(a.to_multiset().count(b[i]) > 0);
            assert(a.to_multiset().count(b[j]) > 0);
            assert(a.contains(b[i]));
            assert(a.contains(b[j]));
            let i1 = choose|k: int| 0 <= k < a.len() && a[k] == b[i];
            let i2 = choose|k: int| 0 <= k < a.len() && a[k] == b[j];
            assert(b[i] != b[j]);
            assert(i1 != i2);
            assert(a[i1].id@ != a[i2].id@);
        }
    }
}

/// Sorts search hits by score, highest first, keeping the same collection.
pub fn sort_metas_by_score_desc(v: &mut Vec<ChunkMeta>)
    ensures
        final(v)@.len() == old(v)@.len(),
        final(v)@.to_multiset() == old(v)@.to_multiset(),
        metas_sorted_desc(final(v)@),
{
    broadcast use vstd::seq_lib::group_to_multiset_ensures;
    broadcast use vstd::multiset::group_multiset_axioms;

    let n = v.len();
    if n <= 1 {
        return ;
    }
    let ghost orig = v@;
    let mut i: usize = 1;
    while i < n
        invariant
            1 <= i <= n,
            v@.len() == n,
            v@.to_multiset() == orig.to_multiset(),
            metas_sorted_desc(v@.take(i as int)),
        decreases n - i,
    {
        let ghost pre = v@;
        let x = v.remove(i);
        proof {
            vstd::seq_lib::to_multiset_remove(pre, i as int);
        }
        let mut j: usize = i;
        while j > 0 && v[j - 1].score < x.score
            invariant
                0 <= j <= i,
                i < n,
                v@.len() == n - 1,
                v@ == pre.remove(i as int),
                forall|m: int| j <= m < i ==> #[trigger] v@[m].score < x.score,
            decreases j,
        {
            j = j - 1;
        }
        let ghost mid = v@;
        v.insert(j, x);
        proof {
            assert(v@ == mid.insert(j as int, x));
            vstd::seq_lib::to_multiset_insert(mid, j as int, x);
            assert(v@.to_multiset() == mid.to_multiset().insert(x));
            pre.to_multiset_ensures();
            assert(pre.contains(pre[i as int]));
            assert(pre.to_multiset().count(pre[i as int]) > 0);
            assert(pre.to_multiset().contains(pre[i as int]));
            assert(v@.to_multiset() =~= pre.to_multiset());
            assert forall|p: int, q: int| 0 <= p < q < i + 1 implies #[trigger] v@[p].score
                >= #[trigger] v@[q].score by {
                assert(forall|m: int| 0 <= m < j ==> v@[m] == #[trigger] mid[m]);
                assert(v@[j as int] == x);
                assert(forall|m: int| j < m <= i ==> v@[m] == #[trigger] mid[m - 1]);
                assert(forall|m: int| 0 <= m < i ==> mid[m] == #[trigger] pre[m]);
                assert(metas_sorted_desc(pre.take(i as int)));
                assert(forall|p0: int, q0: int|
                    0 <= p0 < q0 < i ==> #[trigger] pre[p0].score >= #[trigger] pre[q0].score);
                if p == j as int {
                    assert(q > j);
                    assert(v@[q].score == pre[q - 1].score);
                    assert(j <= q - 1 < i);
                    assert(pre[q - 1].score < x.score);
                } else if q == j as int {
                    assert(p < j);
                    assert(v@[p].score == pre[p].score);
                    assert(j > 0 ==> pre[j - 1].score >= x.score);
                    assert(pre[p].score >= pre[j - 1].score || p == j - 1);
                } else if p < j && q > j {
                    assert(v@[p].score == pre[p].score && v@[q].score == pre[q - 1].score);
                } else if p < j && q < j {
                    assert(v@[p].score == pre[p].score && v@[q].score == pre[q].score);
                } else {
                    assert(v@[p].score == pre[p - 1].score && v@[q].score == pre[q - 1].score);
                }
            }
            assert(metas_sorted_desc(v@.take(i as int + 1)));
        }
        i = i + 1;
    }
    assert(v@.take(n as int) =~= v@);
}


/// Bounds on the per-source aggregates.
proof fn lemma_source_counts_bounds(docs: Seq<DocumentRecord>, sid: Seq<char>)
    ensures
        0 <= VectorDB::count_docs_of_source(docs, sid) <= docs.len(),
        0 <= VectorDB::sum_chunks_of_source(docs, sid) <= docs.len() * 0x1_0000_0000,
    decreases docs.len(),
{
    if docs.len() > 0 {
        lemma_source_counts_bounds(docs.drop_last(), sid);
        assert((docs.len() as int) * 0x1_0000_0000 == (docs.len() - 1) * 0x1_0000_0000
            + 0x1_0000_0000) by (nonlinear_arith);
    }
}

/// A source none of the documents carry has zero counts.
proof fn lemma_source_counts_zero(docs: Seq<DocumentRecord>, sid: Seq<char>)
    requires
        forall|j: int| 0 <= j < docs.len() ==> (#[trigger] docs[j]).source_id@ != sid,
    ensures
        VectorDB::count_docs_of_source(docs, sid) == 0,
        VectorDB::sum_chunks_of_source(docs, sid) == 0,
    decreases docs.len(),
{
    if docs.len() > 0 {
        assert(forall|j: int|
            0 <= j < docs.len() - 1 ==> (#[trigger] docs.drop_last()[j]).source_id@ != sid);
        lemma_source_counts_zero(docs.drop_last(), sid);
        assert(docs[docs.len() - 1].source_id@ != sid);
    }
}

/// Extending the document list by one keeps an aggregate row right, after
/// the row absorbs the new document (or unchanged when the source differs).
proof fn lemma_source_row_step(
    docs1: Seq<DocumentRecord>,
    old_row: Source,
    new_row: Source,
    nd: DocumentRecord,
)
    requires
        docs1.len() > 0,
        docs1.last() == nd,
        VectorDB::source_row_ok(docs1.drop_last(), old_row),
        if nd.source_id@ == old_row.id@ {
            &&& new_row.id == old_row.id
            &&& new_row.name == old_row.name
            &&& new_row.description == old_row.description
            &&& new_row.doc_count as int == old_row.doc_count as int + 1
            &&& new_row.chunk_count as int == old_row.chunk_count as int + nd.chunk_count as int
            &&& match (old_row.last_indexed, new_row.last_indexed) {
                (Option::Some(cur), Option::Some(upd)) => if crate::textutil::lex_lt(
                    cur@,
                    nd.created_at@,
                ) {
                    upd@ == nd.created_at@
                } else {
                    upd == cur
                },
                _ => false,
            }
        } else {
            new_row == old_row
        },
    ensures
        VectorDB::source_row_ok(docs1, new_row),
{
    let prefix = docs1.drop_last();
    if nd.source_id@ == old_row.id@ {
        let cur = old_row.last_indexed.unwrap();
        let upd = new_row.last_indexed.unwrap();
        if crate::textutil::lex_lt(cur@, nd.created_at@) {
            assert(docs1[docs1.len() - 1].source_id@ == new_row.id@ && docs1[docs1.len()
                - 1].created_at@ == upd@);
            assert forall|j: int|
                0 <= j < docs1.len() && (#[trigger] docs1[j]).source_id@ == new_row.id@ implies !crate::textutil::lex_lt(
                upd@,
                docs1[j].created_at@,
            ) by {
                if j < docs1.len() - 1 {
                    assert(prefix[j] == docs1[j]);
                    assert(!crate::textutil::lex_lt(cur@, docs1[j].created_at@));
                    if crate::textutil::lex_lt(upd@, docs1[j].created_at@) {
                        crate::textutil::lemma_lex_trans(cur@, upd@, docs1[j].created_at@);
                    }
                } else {
                    crate::textutil::lemma_lex_irrefl(upd@);
                }
            }
        } else {
            let j0 = choose|j: int|
                0 <= j < prefix.len() && (#[trigger] prefix[j]).source_id@ == old_row.id@
                    && prefix[j].created_at@ == cur@;
            assert(docs1[j0] == prefix[j0]);
            assert forall|j: int|
                0 <= j < docs1.len() && (#[trigger] docs1[j]).source_id@ == new_row.id@ implies !crate::textutil::lex_lt(
                upd@,
                docs1[j].created_at@,
            ) by {
                if j < docs1.len() - 1 {
                    assert(prefix[j] == docs1[j]);
                }
            }
        }
    } else {
        match new_row.last_indexed {
            Option::Some(d) => {
                let j0 = choose|j: int|
                    0 <= j < prefix.len() && (#[trigger] prefix[j]).source_id@ == old_row.id@
                        && prefix[j].created_at@ == d@;
                assert(docs1[j0] == prefix[j0]);
                assert forall|j: int|
                    0 <= j < docs1.len() && (#[trigger] docs1[j]).source_id@ == new_row.id@
                    implies !crate::textutil::lex_lt(d@, docs1[j].created_at@) by {
                    if j < docs1.len() - 1 {
                        assert(prefix[j] == docs1[j]);
                    }
                }
            },
            Option::None => {},
        }
    }
}

/// A fresh aggregate row for a source first seen in the new document.
proof fn lemma_source_row_new(docs1: Seq<DocumentRecord>, row: Source, nd: DocumentRecord)
    requires
        docs1.len() > 0,
        docs1.last() == nd,
        forall|j: int|
            0 <= j < docs1.len() - 1 ==> (#[trigger] docs1[j]).source_id@ != nd.source_id@,
        row.id@ == nd.source_id@,
        row.name@ == nd.source_id@,
        row.description is None,
        row.doc_count == 1,
        row.chunk_count == nd.chunk_count as u64,
        row.last_indexed matches Option::Some(d) && d@ == nd.created_at@,
    ensures
        VectorDB::source_row_ok(docs1, row),
{
    let prefix = docs1.drop_last();
    assert(forall|j: int|
        0 <= j < prefix.len() ==> (#[trigger] prefix[j]).source_id@ != row.id@);
    lemma_source_counts_zero(prefix, row.id@);
    assert(docs1[docs1.len() - 1].source_id@ == row.id@);
    let d = row.last_indexed.unwrap();
    crate::textutil::lemma_lex_irrefl(d@);
    assert forall|j: int|
        0 <= j < docs1.len() && (#[trigger] docs1[j]).source_id@ == row.id@ implies !crate::textutil::lex_lt(
        d@,
        docs1[j].created_at@,
    ) by {
        if j < docs1.len() - 1 {
            assert(prefix[j] == docs1[j]);
        }
    }
}

/// The filter keeping one source's records.
pub open spec fn matches_source(sid: Seq<char>) -> spec_fn(DocumentRecord) -> bool {
    |d: DocumentRecord| d.source_id@ == sid
}

/// What a document listing promises: exactly the first matching rows of the
/// source, in store order, as many as the limit allows (ten when none is
/// given).
pub open spec fn list_documents_post(
    s: VectorDB,
    sid: Seq<char>,
    limit: Option<usize>,
    r: Seq<DocumentMeta>,
) -> bool {
    let lim = match limit {
        Option::Some(l) => l as int,
        Option::None => DEFAULT_QUERY_LIMIT as int,
    };
    let matching = s.docs@.filter(matches_source(sid));
    &&& r.len() == if matching.len() <= lim {
        matching.len() as int
    } else {
        lim
    }
    &&& forall|m: int| 0 <= m < r.len() ==> doc_meta_matches(#[trigger] r[m], matching[m])
}

/// A filtered prefix is a prefix of the whole filter.
proof fn lemma_filter_prefix_stable<A>(s: Seq<A>, pred: spec_fn(A) -> bool, i: int)
    requires
        0 <= i <= s.len(),
    ensures
        s.take(i).filter(pred).len() <= s.filter(pred).len(),
        forall|m: int|
            0 <= m < s.take(i).filter(pred).len() ==> #[trigger] s.take(i).filter(pred)[m]
                == s.filter(pred)[m],
    decreases s.len() - i,
{
    reveal(Seq::filter);
    if i == s.len() {
        assert(s.take(i) =~= s);
    } else {
        lemma_filter_prefix_stable(s, pred, i + 1);
        assert(s.take(i + 1).drop_last() =~= s.take(i));
        assert(s.take(i + 1).last() == s[i]);
        if pred(s[i]) {
            assert(s.take(i + 1).filter(pred) == s.take(i).filter(pred).push(s[i]));
            assert(forall|m: int|
                0 <= m < s.take(i).filter(pred).len() ==> #[trigger] s.take(i).filter(pred)[m]
                    == s.take(i + 1).filter(pred)[m]);
        } else {
            assert(s.take(i + 1).filter(pred) == s.take(i).filter(pred));
        }
    }
}

/// A listing row agrees with a stored document record.
pub open spec fn doc_meta_matches(m: DocumentMeta, d: DocumentRecord) -> bool {
    &&& m.id == d.id
    &&& m.source_id == d.source_id
    &&& m.title == d.title
    &&& m.file_path == d.file_path
    &&& m.created_at == d.created_at
    &&& m.chunk_count == d.chunk_count
    &&& m.content_length == d.content_length as usize
}

/// Every element of a filtered sequence is an element of the original.
proof fn lemma_filter_subset<A>(s: Seq<A>, pred: spec_fn(A) -> bool)
    ensures
        forall|m: int| 0 <= m < s.filter(pred).len() ==> s.contains(#[trigger] s.filter(pred)[m]),
    decreases s.len(),
{
    reveal(Seq::filter);
    if s.len() > 0 {
        lemma_filter_subset(s.drop_last(), pred);
        let f = s.filter(pred);
        let sub = s.drop_last().filter(pred);
        assert forall|m: int| 0 <= m < f.len() implies s.contains(#[trigger] f[m]) by {
            if pred(s.last()) && m == f.len() - 1 {
                assert(f[m] == s.last());
                assert(s[s.len() - 1] == s.last());
            } else {
                assert(f[m] == sub[m]);
                assert(s.drop_last().contains(sub[m]));
                let j = choose|j: int| 0 <= j < s.drop_last().len() && s.drop_last()[j] == sub[m];
                assert(s[j] == sub[m]);
            }
        }
    }
}

/// Filtering a chunk list keeps hashes and ids pairwise distinct.
proof fn lemma_filter_chunks_wf(s: Seq<StoredChunk>, pred: spec_fn(StoredChunk) -> bool)
    requires
        forall|i: int, j: int|
            0 <= i < j < s.len() ==> (#[trigger] s[i]).record.content_hash@
                != (#[trigger] s[j]).record.content_hash@ && s[i].record.id@ != s[j].record.id@,
    ensures
        forall|i: int, j: int|
            0 <= i < j < s.filter(pred).len() ==> (#[trigger] s.filter(pred)[i]).record.content_hash@
                != (#[trigger] s.filter(pred)[j]).record.content_hash@ && s.filter(
                pred,
            )[i].record.id@ != s.filter(pred)[j].record.id@,
    decreases s.len(),
{
    reveal(Seq::filter);
    if s.len() > 0 {
        assert(forall|i: int, j: int|
            0 <= i < j < s.drop_last().len() ==> (#[trigger] s.drop_last()[i]).record.content_hash@
                != (#[trigger] s.drop_last()[j]).record.content_hash@ && s.drop_last()[i].record.id@
                != s.drop_last()[j].record.id@);
        lemma_filter_chunks_wf(s.drop_last(), pred);
        lemma_filter_subset(s.drop_last(), pred);
        let f = s.filter(pred);
        let sub = s.drop_last().filter(pred);
        assert forall|i: int, j: int|
            0 <= i < j < f.len() implies (#[trigger] f[i]).record.content_hash@
            != (#[trigger] f[j]).record.content_hash@ && f[i].record.id@ != f[j].record.id@ by {
            if pred(s.last()) && j == f.len() - 1 {
                assert(f[j] == s.last());
                assert(f[i] == sub[i]);
                assert(s.drop_last().contains(sub[i]));
                let w = choose|w: int| 0 <= w < s.drop_last().len() && s.drop_last()[w] == sub[i];
                assert(s[w] == sub[i] && 0 <= w < s.len() - 1);
                assert(s[w].record.content_hash@ != s[s.len() - 1].record.content_hash@);
            } else {
                assert(f[i] == sub[i] && f[j] == sub[j]);
            }
        }
    }
}

/// A copy of a document record, field for field.
pub fn clone_doc_record(r: &DocumentRecord) -> (c: DocumentRecord)
    ensures
        c == *r,
{
    DocumentRecord {
        id: r.id.clone(),
        source_id: r.source_id.clone(),
        title: r.title.clone(),
        file_path: clone_opt_exact(&r.file_path),
        created_at: r.created_at.clone(),
        chunk_count: r.chunk_count,
        content_length: r.content_length,
    }
}

/// A copy of an optional string, equal to the original.
pub fn clone_opt_exact(o: &Option<String>) -> (r: Option<String>)
    ensures
        r == *o,
{
    match o {
        Option::Some(s) => Option::Some(s.clone()),
        Option::None => Option::None,
    }
}

/// Errors of the vector index.
#[derive(Debug)]
pub enum StoreError {
    /// A vector's length is not the index's dimension, or a component is out
    /// of the fixed-point range.
    InvalidVector,
    /// The numbers of records and vectors differ.
    MismatchedBatch,
}

/// The vector index: documents, and chunks with their embeddings.
pub struct VectorDB {
    pub docs: Vec<DocumentRecord>,
    pub chunks: Vec<StoredChunk>,
    pub dim: usize,
}

impl VectorDB {
    /// Well-formedness: every stored vector has the index dimension with
    /// components within one unit, and no two chunks share a content hash or
    /// an id.
    pub open spec fn wf(self) -> bool {
        &&& 1 <= self.dim <= MAX_DIM
        &&& forall|i: int|
            0 <= i < self.chunks@.len() ==> (#[trigger] self.chunks@[i]).vector@.len()
                == self.dim && vec_in_range(self.chunks@[i].vector@)
        &&& forall|i: int, j: int|
            0 <= i < j < self.chunks@.len() ==> (#[trigger] self.chunks@[i]).record.content_hash@
                != (#[trigger] self.chunks@[j]).record.content_hash@
        &&& forall|i: int, j: int|
            0 <= i < j < self.chunks@.len() ==> (#[trigger] self.chunks@[i]).record.id@
                != (#[trigger] self.chunks@[j]).record.id@
    }

    /// Some stored chunk has this content hash.
    pub open spec fn has_hash(self, h: Seq<char>) -> bool {
        exists|i: int|
            0 <= i < self.chunks@.len() && (#[trigger] self.chunks@[i]).record.content_hash@ == h
    }

    /// Some stored chunk has this id.
    pub open spec fn has_chunk_id(self, id: Seq<char>) -> bool {
        exists|i: int|
            0 <= i < self.chunks@.len() && (#[trigger] self.chunks@[i]).record.id@ == id
    }

    /// Some stored document belongs to this source.
    pub open spec fn has_source(self, sid: Seq<char>) -> bool {
        exists|i: int|
            0 <= i < self.docs@.len() && (#[trigger] self.docs@[i]).source_id@ == sid
    }

    /// A fresh, empty index with the given embedding dimension.
    pub fn new(dim: usize) -> (r: Self)
        requires
            1 <= dim <= MAX_DIM,
        ensures
            r.wf(),
            r.docs@.len() == 0,
            r.chunks@.len() == 0,
            r.dim == dim,
    {
        VectorDB { docs: Vec::new(), chunks: Vec::new(), dim }
    }

    /// Appends a document record.
    pub fn insert_document(&mut self, doc: DocumentRecord)
        requires
            old(self).wf(),
        ensures
            final(self).wf(),
            final(self).docs@ == old(self).docs@.push(doc),
            final(self).chunks@ == old(self).chunks@,
            final(self).dim == old(self).dim,
    {
        self.docs.push(doc);
    }

    /// Whether a chunk with this content hash is already stored.
    pub fn chunk_exists(&self, content_hash: &str) -> (r: bool)
        ensures
            r == self.has_hash(content_hash@),
    {
        let n = self.chunks.len();
        let mut i: usize = 0;
        while i < n
            invariant
                0 <= i <= n,
                n == self.chunks@.len(),
                forall|j: int|
                    0 <= j < i ==> (#[trigger] self.chunks@[j]).record.content_hash@
                        != content_hash@,
            decreases n - i,
        {
            if crate::textutil::str_eq(self.chunks[i].record.content_hash.as_str(), content_hash) {
                return true;
            }
            i = i + 1;
        }
        false
    }

    /// Whether a chunk with this id is already stored.
    fn chunk_id_exists(&self, id: &String) -> (r: bool)
        ensures
            r == self.has_chunk_id(id@),
    {
        let n = self.chunks.len();
        let mut i: usize = 0;
        while i < n
            invariant
                0 <= i <= n,
                n == self.chunks@.len(),
                forall|j: int| 0 <= j < i ==> (#[trigger] self.chunks@[j]).record.id@ != id@,
            decreases n - i,
        {
            if self.chunks[i].record.id == *id {
                return true;
            }
            i = i + 1;
        }
        false
    }

    /// What the chunk store holds after inserting a batch in order, skipping
    /// any record whose content hash or id is already present.
    pub open spec fn insert_fold(
        chunks0: Seq<StoredChunk>,
        batch: Seq<StoredChunk>,
    ) -> Seq<StoredChunk>
        decreases batch.len(),
    {
        if batch.len() == 0 {
            chunks0
        } else {
            let pre = Self::insert_fold(chunks0, batch.drop_last());
            let c = batch.last();
            if (exists|i: int|
                0 <= i < pre.len() && (#[trigger] pre[i]).record.content_hash@
                    == c.record.content_hash@) || (exists|i: int|
                0 <= i < pre.len() && (#[trigger] pre[i]).record.id@ == c.record.id@) {
                pre
            } else {
                pre.push(c)
            }
        }
    }

    /// Inserts a batch of chunk records with their embeddings. A vector of
    /// the wrong dimension, or with a component out of range, fails the whole
    /// call and leaves the index unchanged. Records whose content hash or id
    /// is already stored are silently skipped; the rest are appended in
    /// order.
    pub fn insert_chunks(&mut self, records: Vec<ChunkRecord>, vectors: Vec<Vec<i64>>) -> (r:
        Result<(), StoreError>)
        requires
            old(self).wf(),
        ensures
            final(self).wf(),
            final(self).dim == old(self).dim,
            final(self).docs@ == old(self).docs@,
            match r {
                Result::Ok(()) => {
                    &&& records@.len() == vectors@.len()
                    &&& forall|i: int|
                        0 <= i < vectors@.len() ==> (#[trigger] vectors@[i])@.len()
                            == old(self).dim && vec_in_range(vectors@[i]@)
                    &&& final(self).chunks@ == Self::insert_fold(
                        old(self).chunks@,
                        Seq::new(
                            records@.len(),
                            |i: int| StoredChunk { record: records@[i], vector: vectors@[i] },
                        ),
                    )
                },
                Result::Err(_) => {
                    final(self).chunks@ == old(self).chunks@ && (records@.len() != vectors@.len()
                        || exists|i: int|
                        0 <= i < vectors@.len() && ((#[trigger] vectors@[i])@.len()
                            != old(self).dim || !vec_in_range(vectors@[i]@)))
                },
            },
    {
        let n = records.len();
        if vectors.len() != n {
            return Result::Err(StoreError::MismatchedBatch);
        }
        // validate every vector first: a failed call changes nothing
        let mut i: usize = 0;
        while i < n
            invariant
                0 <= i <= n,
                n == records@.len() == vectors@.len(),
                old(self).wf(),
                self == old(self),
                forall|j: int|
                    0 <= j < i ==> (#[trigger] vectors@[j])@.len() == old(self).dim
                        && vec_in_range(vectors@[j]@),
            decreases n - i,
        {
            if vectors[i].len() != self.dim {
                return Result::Err(StoreError::InvalidVector);
            }
            let m = vectors[i].len();
            let mut k: usize = 0;
            while k < m
                invariant
                    0 <= k <= m,
                    i < n == vectors@.len(),
                    m == vectors@[i as int]@.len(),
                    old(self).wf(),
                    self == old(self),
                    forall|t: int|
                        0 <= t < k ==> -(SCORE_SCALE as int) <= #[trigger] vectors@[i as int]@[t] as int
                            <= SCORE_SCALE as int,
                decreases m - k,
            {
                let c = vectors[i][k];
                if c > SCORE_SCALE || c < -SCORE_SCALE {
                    return Result::Err(StoreError::InvalidVector);
                }
                k = k + 1;
            }
            i = i + 1;
        }
        let ghost batch = Seq::new(
            records@.len(),
            |i: int| StoredChunk { record: records@[i], vector: vectors@[i] },
        );
        // insert, skipping duplicates
        let mut records = records;
        let mut vectors = vectors;
        let mut done: usize = 0;
        proof {
            assert(batch.take(0) =~= Seq::<StoredChunk>::empty());
        }
        while done < n
            invariant
                0 <= done <= n,
                records@.len() == n - done,
                vectors@.len() == n - done,
                n == batch.len(),
                forall|j: int|
                    0 <= j < n - done ==> batch[done + j] == (StoredChunk {
                        record: #[trigger] records@[j],
                        vector: vectors@[j],
                    }),
                forall|j: int|
                    0 <= j < n - done ==> (#[trigger] vectors@[j])@.len() == old(self).dim
                        && vec_in_range(vectors@[j]@),
                self.dim == old(self).dim,
                self.docs@ == old(self).docs@,
                old(self).wf(),
                self.wf(),
                self.chunks@ == Self::insert_fold(old(self).chunks@, batch.take(done as int)),
            decreases n - done,
        {
            let rec = records.remove(0);
            let vector = vectors.remove(0);
            proof {
                assert(batch[done as int] == (StoredChunk { record: rec, vector: vector }));
                assert(batch.take(done + 1).drop_last() =~= batch.take(done as int));
                assert(batch.take(done + 1).last() == batch[done as int]);
            }
            let dup = self.chunk_exists(rec.content_hash.as_str()) || self.chunk_id_exists(&rec.id);
            if !dup {
                let ghost pre = self.chunks@;
                self.chunks.push(StoredChunk { record: rec, vector });
                proof {
                    assert forall|p: int, q: int|
                        0 <= p < q < self.chunks@.len() implies (#[trigger] self.chunks@[p]).record.content_hash@
                        != (#[trigger] self.chunks@[q]).record.content_hash@ && self.chunks@[p].record.id@
                        != self.chunks@[q].record.id@ by {
                        if q == self.chunks@.len() - 1 {
                            assert(self.chunks@[p] == pre[p]);
                        } else {
                            assert(self.chunks@[p] == pre[p] && self.chunks@[q] == pre[q]);
                        }
                    }
                }
            }
            done = done + 1;
        }
        proof {
            assert(batch.take(n as int) =~= batch);
        }
        Result::Ok(())
    }

    /// Looks a document up by id.
    pub fn get_document(&self, doc_id: &str) -> (r: Option<DocumentRecord>)
        ensures
            match r {
                Option::Some(d) => exists|i: int|
                    0 <= i < self.docs@.len() && #[trigger] self.docs@[i] == d && d.id@ == doc_id@,
                Option::None => forall|i: int|
                    0 <= i < self.docs@.len() ==> (#[trigger] self.docs@[i]).id@ != doc_id@,
            },
    {
        let n = self.docs.len();
        let mut i: usize = 0;
        while i < n
            invariant
                0 <= i <= n,
                n == self.docs@.len(),
                forall|j: int| 0 <= j < i ==> (#[trigger] self.docs@[j]).id@ != doc_id@,
            decreases n - i,
        {
            if crate::textutil::str_eq(self.docs[i].id.as_str(), doc_id) {
                return Option::Some(clone_doc_record(&self.docs[i]));
            }
            i = i + 1;
        }
        Option::None
    }

    /// How many stored documents belong to the source.
    pub open spec fn count_docs_of_source(docs: Seq<DocumentRecord>, sid: Seq<char>) -> int
        decreases docs.len(),
    {
        if docs.len() == 0 {
            0
        } else {
            Self::count_docs_of_source(docs.drop_last(), sid) + if docs.last().source_id@ == sid {
                1int
            } else {
                0
            }
        }
    }

    /// The ids of the source's documents, in store order.
    pub open spec fn doc_ids_of_source(docs: Seq<DocumentRecord>, sid: Seq<char>) -> Seq<
        Seq<char>,
    >
        decreases docs.len(),
    {
        if docs.len() == 0 {
            Seq::empty()
        } else {
            let pre = Self::doc_ids_of_source(docs.drop_last(), sid);
            if docs.last().source_id@ == sid {
                pre.push(docs.last().id@)
            } else {
                pre
            }
        }
    }

    /// The ids of every document of the source, for cross-store deletion.
    pub fn get_document_ids_for_source(&self, source_id: &str) -> (r: Vec<String>)
        ensures
            r@.map_values(|s: String| s@) == Self::doc_ids_of_source(self.docs@, source_id@),
    {
        let n = self.docs.len();
        let mut r: Vec<String> = Vec::new();
        let mut i: usize = 0;
        while i < n
            invariant
                0 <= i <= n,
                n == self.docs@.len(),
                r@.map_values(|s: String| s@) == Self::doc_ids_of_source(
                    self.docs@.take(i as int),
                    source_id@,
                ),
            decreases n - i,
        {
            proof {
                assert(self.docs@.take(i + 1).drop_last() =~= self.docs@.take(i as int));
                assert(self.docs@.take(i + 1).last() == self.docs@[i as int]);
            }
            if crate::textutil::str_eq(self.docs[i].source_id.as_str(), source_id) {
                let id = self.docs[i].id.clone();
                r.push(id);
                proof {
                    assert(r@.map_values(|s: String| s@) =~= Self::doc_ids_of_source(
                        self.docs@.take(i + 1),
                        source_id@,
                    ));
                }
            } else {
                proof {
                    assert(r@.map_values(|s: String| s@) =~= Self::doc_ids_of_source(
                        self.docs@.take(i + 1),
                        source_id@,
                    ));
                }
            }
            i = i + 1;
        }
        proof {
            assert(self.docs@.take(n as int) =~= self.docs@);
        }
        r
    }

    /// Lists documents of a source, up to a limit (ten when none is given):
    /// exactly the first matching rows, in store order.
    #[verifier::loop_isolation(false)]
    pub fn list_documents(&self, source_id: &str, limit: Option<usize>) -> (r: Vec<DocumentMeta>)
        ensures
            list_documents_post(*self, source_id@, limit, r@),
    {
        let lim = match limit {
            Option::Some(l) => l,
            Option::None => DEFAULT_QUERY_LIMIT,
        };
        let ghost pred = matches_source(source_id@);
        let n = self.docs.len();
        let mut r: Vec<DocumentMeta> = Vec::new();
        let mut i: usize = 0;
        proof {
            reveal(Seq::filter);
            assert(self.docs@.take(0).filter(pred) =~= Seq::<DocumentRecord>::empty());
        }
        while i < n
            invariant
                0 <= i <= n,
                n == self.docs@.len(),
                r@.len() <= lim,
                r@.len() == if self.docs@.take(i as int).filter(pred).len() <= lim as int {
                    self.docs@.take(i as int).filter(pred).len() as int
                } else {
                    lim as int
                },
                forall|m: int|
                    0 <= m < r@.len() ==> doc_meta_matches(
                        #[trigger] r@[m],
                        self.docs@.take(i as int).filter(pred)[m],
                    ),
            decreases n - i,
        {
            proof {
                reveal(Seq::filter);
                assert(self.docs@.take(i + 1).drop_last() =~= self.docs@.take(i as int));
                assert(self.docs@.take(i + 1).last() == self.docs@[i as int]);
            }
            if r.len() >= lim {
                proof {
                    lemma_filter_prefix_stable(self.docs@, pred, i as int);
                    assert(list_documents_post(*self, source_id@, limit, r@));
                }
                return r;
            }
            if crate::textutil::str_eq(self.docs[i].source_id.as_str(), source_id) {
                let d = &self.docs[i];
                let ghost pre = r@;
                r.push(
                    DocumentMeta {
                        id: d.id.clone(),
                        source_id: d.source_id.clone(),
                        title: d.title.clone(),
                        file_path: clone_opt_exact(&d.file_path),
                        created_at: d.created_at.clone(),
                        chunk_count: d.chunk_count,
                        content_length: d.content_length as usize,
                    },
                );
                proof {
                    assert(forall|m: int| 0 <= m < pre.len() ==> #[trigger] r@[m] == pre[m]);
                    assert(self.docs@.take(i + 1).filter(pred) =~= self.docs@.take(
                        i as int,
                    ).filter(pred).push(self.docs@[i as int]));
                }
            }
            i = i + 1;
        }
        proof {
            assert(self.docs@.take(n as int) =~= self.docs@);
        }
        r
    }

    /// All document records, up to a limit (ten when none is given).
    pub fn get_all_document_records(&self, limit: Option<usize>) -> (r: Vec<DocumentRecord>)
        ensures
            ({
                let lim = match limit {
                    Option::Some(l) => l as int,
                    Option::None => DEFAULT_QUERY_LIMIT as int,
                };
                &&& r@.len() == if self.docs@.len() <= lim {
                    self.docs@.len() as int
                } else {
                    lim
                }
                &&& forall|m: int| 0 <= m < r@.len() ==> #[trigger] r@[m] == self.docs@[m]
            }),
    {
        let lim = match limit {
            Option::Some(l) => l,
            Option::None => DEFAULT_QUERY_LIMIT,
        };
        let n = self.docs.len();
        let mut r: Vec<DocumentRecord> = Vec::new();
        let mut i: usize = 0;
        while i < n && i < lim
            invariant
                0 <= i <= n,
                i <= lim,
                n == self.docs@.len(),
                r@.len() == i,
                forall|m: int| 0 <= m < i ==> #[trigger] r@[m] == self.docs@[m],
            decreases n - i,
        {
            r.push(clone_doc_record(&self.docs[i]));
            i = i + 1;
        }
        r
    }

    /// Deletes a document and all its chunks.
    pub fn delete_document(&mut self, doc_id: &str)
        requires
            old(self).wf(),
        ensures
            final(self).wf(),
            final(self).dim == old(self).dim,
            final(self).docs@ == old(self).docs@.filter(
                |d: DocumentRecord| d.id@ != doc_id@,
            ),
            final(self).chunks@ == old(self).chunks@.filter(
                |c: StoredChunk| c.record.document_id@ != doc_id@,
            ),
    {
        let ghost orig_docs = self.docs@;
        let ghost orig_chunks = self.chunks@;
        let n = self.docs.len();
        let mut docs: Vec<DocumentRecord> = Vec::new();
        let mut i: usize = 0;
        while i < n
            invariant
                0 <= i <= n,
                n == orig_docs.len(),
                self.docs@ == orig_docs.skip(i as int),
                self.chunks@ == orig_chunks,
                self.dim == old(self).dim,
                docs@ == orig_docs.take(i as int).filter(|d: DocumentRecord| d.id@ != doc_id@),
            decreases n - i,
        {
            let d = self.docs.remove(0);
            proof {
                reveal(Seq::filter);
                assert(orig_docs.skip(i as int)[0] == orig_docs[i as int]);
                assert(orig_docs.skip(i as int).remove(0) =~= orig_docs.skip(i + 1));
                assert(orig_docs.take(i + 1).drop_last() =~= orig_docs.take(i as int));
                assert(orig_docs.take(i + 1).last() == orig_docs[i as int]);
            }
            if !crate::textutil::str_eq(d.id.as_str(), doc_id) {
                docs.push(d);
            }
            i = i + 1;
        }
        let m = self.chunks.len();
        let mut chunks: Vec<StoredChunk> = Vec::new();
        let mut k: usize = 0;
        while k < m
            invariant
                0 <= k <= m,
                m == orig_chunks.len(),
                self.chunks@ == orig_chunks.skip(k as int),
                self.dim == old(self).dim,
                old(self).wf(),
                orig_chunks == old(self).chunks@,
                chunks@ == orig_chunks.take(k as int).filter(
                    |c: StoredChunk| c.record.document_id@ != doc_id@,
                ),
            decreases m - k,
        {
            let c = self.chunks.remove(0);
            proof {
                reveal(Seq::filter);
                assert(orig_chunks.skip(k as int)[0] == orig_chunks[k as int]);
                assert(orig_chunks.skip(k as int).remove(0) =~= orig_chunks.skip(k + 1));
                assert(orig_chunks.take(k + 1).drop_last() =~= orig_chunks.take(k as int));
                assert(orig_chunks.take(k + 1).last() == orig_chunks[k as int]);
            }
            if !crate::textutil::str_eq(c.record.document_id.as_str(), doc_id) {
                chunks.push(c);
            }
            k = k + 1;
        }
        self.docs = docs;
        self.chunks = chunks;
        proof {
            assert(orig_docs.take(n as int) =~= orig_docs);
            assert(orig_chunks.take(m as int) =~= orig_chunks);
            let pred = |c: StoredChunk| c.record.document_id@ != doc_id@;
            lemma_filter_chunks_wf(orig_chunks, pred);
            lemma_filter_subset(orig_chunks, pred);
            assert forall|i: int| 0 <= i < self.chunks@.len() implies (#[trigger] self.chunks@[i]).vector@.len()
                == self.dim && vec_in_range(self.chunks@[i].vector@) by {
                assert(orig_chunks.contains(self.chunks@[i]));
                let j = choose|j: int| 0 <= j < orig_chunks.len() && orig_chunks[j] == self.chunks@[i];
                assert(old(self).chunks@[j].vector@.len() == old(self).dim);
            }
        }
    }

    /// Deletes every document and chunk of a source.
    pub fn delete_source(&mut self, source_id: &str)
        requires
            old(self).wf(),
        ensures
            final(self).wf(),
            final(self).dim == old(self).dim,
            final(self).docs@ == old(self).docs@.filter(
                |d: DocumentRecord| d.source_id@ != source_id@,
            ),
            final(self).chunks@ == old(self).chunks@.filter(
                |c: StoredChunk| c.record.source_id@ != source_id@,
            ),
            !final(self).has_source(source_id@),
    {
        let ghost orig_docs = self.docs@;
        let ghost orig_chunks = self.chunks@;
        let n = self.docs.len();
        let mut docs: Vec<DocumentRecord> = Vec::new();
        let mut i: usize = 0;
        while i < n
            invariant
                0 <= i <= n,
                n == orig_docs.len(),
                self.docs@ == orig_docs.skip(i as int),
                self.chunks@ == orig_chunks,
                self.dim == old(self).dim,
                docs@ == orig_docs.take(i as int).filter(
                    |d: DocumentRecord| d.source_id@ != source_id@,
                ),
            decreases n - i,
        {
            let d = self.docs.remove(0);
            proof {
                reveal(Seq::filter);
                assert(orig_docs.skip(i as int)[0] == orig_docs[i as int]);
                assert(orig_docs.skip(i as int).remove(0) =~= orig_docs.skip(i + 1));
                assert(orig_docs.take(i + 1).drop_last() =~= orig_docs.take(i as int));
                assert(orig_docs.take(i + 1).last() == orig_docs[i as int]);
            }
            if !crate::textutil::str_eq(d.source_id.as_str(), source_id) {
                docs.push(d);
            }
            i = i + 1;
        }
        let m = self.chunks.len();
        let mut chunks: Vec<StoredChunk> = Vec::new();
        let mut k: usize = 0;
        while k < m
            invariant
                0 <= k <= m,
                m == orig_chunks.len(),
                self.chunks@ == orig_chunks.skip(k as int),
                self.dim == old(self).dim,
                old(self).wf(),
                orig_chunks == old(self).chunks@,
                chunks@ == orig_chunks.take(k as int).filter(
                    |c: StoredChunk| c.record.source_id@ != source_id@,
                ),
            decreases m - k,
        {
            let c = self.chunks.remove(0);
            proof {
                reveal(Seq::filter);
                assert(orig_chunks.skip(k as int)[0] == orig_chunks[k as int]);
                assert(orig_chunks.skip(k as int).remove(0) =~= orig_chunks.skip(k + 1));
                assert(orig_chunks.take(k + 1).drop_last() =~= orig_chunks.take(k as int));
                assert(orig_chunks.take(k + 1).last() == orig_chunks[k as int]);
            }
            if !crate::textutil::str_eq(c.record.source_id.as_str(), source_id) {
                chunks.push(c);
            }
            k = k + 1;
        }
        self.docs = docs;
        self.chunks = chunks;
        proof {
            assert(orig_docs.take(n as int) =~= orig_docs);
            assert(orig_chunks.take(m as int) =~= orig_chunks);
            let pred = |c: StoredChunk| c.record.source_id@ != source_id@;
            lemma_filter_chunks_wf(orig_chunks, pred);
            lemma_filter_subset(orig_chunks, pred);
            assert forall|i: int| 0 <= i < self.chunks@.len() implies (#[trigger] self.chunks@[i]).vector@.len()
                == self.dim && vec_in_range(self.chunks@[i].vector@) by {
                assert(orig_chunks.contains(self.chunks@[i]));
                let j = choose|j: int| 0 <= j < orig_chunks.len() && orig_chunks[j] == self.chunks@[i];
                assert(old(self).chunks@[j].vector@.len() == old(self).dim);
            }
            assert forall|i: int| 0 <= i < self.docs@.len() implies (#[trigger] self.docs@[i]).source_id@
                != source_id@ by {
                orig_docs.lemma_filter_pred(
                    |d: DocumentRecord| d.source_id@ != source_id@,
                    i,
                );
            }
        }
    }

    /// How many stored chunks pass the source filter.
    pub open spec fn count_chunks_matching(
        chunks: Seq<StoredChunk>,
        src: Option<Seq<char>>,
    ) -> int
        decreases chunks.len(),
    {
        if chunks.len() == 0 {
            0
        } else {
            Self::count_chunks_matching(chunks.drop_last(), src) + if chunk_matches_src(
                chunks.last(),
                src,
            ) {
                1int
            } else {
                0
            }
        }
    }

    /// The hit a stored chunk yields for a query.
    pub open spec fn meta_of(c: StoredChunk, q: Seq<i64>) -> ChunkMeta {
        ChunkMeta {
            id: c.record.id,
            document_id: c.record.document_id,
            source_id: c.record.source_id,
            title: c.record.title,
            file_path: c.record.file_path,
            line_start: c.record.line_start,
            line_end: c.record.line_end,
            score: score_of(q, c.vector@) as i64,
        }
    }

    /// Everything a vector search promises: as many hits as the limit allows,
    /// each the hit of some stored chunk passing the filter, sorted by score
    /// (highest first) with distinct ids and scores in the raw range.
    pub open spec fn search_post(
        s: VectorDB,
        q: Seq<i64>,
        src: Option<Seq<char>>,
        limit: int,
        r: Seq<ChunkMeta>,
    ) -> bool {
        &&& r.len() == if Self::count_chunks_matching(s.chunks@, src) <= limit {
            Self::count_chunks_matching(s.chunks@, src)
        } else {
            limit
        }
        &&& forall|m: int|
            0 <= m < r.len() ==> exists|i: int|
                0 <= i < s.chunks@.len() && chunk_matches_src(#[trigger] s.chunks@[i], src)
                    && #[trigger] r[m] == Self::meta_of(s.chunks@[i], q)
        &&& metas_sorted_desc(r)
        &&& metas_distinct_ids(r)
        &&& forall|m: int| 0 <= m < r.len() ==> valid_raw_score(#[trigger] r[m].score as int)
    }

    /// Searches the chunks most similar to the query vector, with an optional
    /// source filter.
    #[verifier::rlimit(100)]
    pub fn search_filtered(
        &self,
        query: &Vec<i64>,
        limit: usize,
        source_id: Option<&String>,
    ) -> (r: Vec<ChunkMeta>)
        requires
            self.wf(),
            query@.len() == self.dim,
            vec_in_range(query@),
        ensures
            Self::search_post(*self, query@, src_view(source_id), limit as int, r@),
    {
        let ghost src = src_view(source_id);
        let n = self.chunks.len();
        let mut cands: Vec<ChunkMeta> = Vec::new();
        let mut i: usize = 0;
        proof {
            assert(self.chunks@.take(0) =~= Seq::<StoredChunk>::empty());
        }
        while i < n
            invariant
                0 <= i <= n,
                n == self.chunks@.len(),
                self.wf(),
                query@.len() == self.dim,
                vec_in_range(query@),
                src == src_view(source_id),
                cands@.len() == Self::count_chunks_matching(self.chunks@.take(i as int), src),
                forall|m: int|
                    0 <= m < cands@.len() ==> exists|j: int|
                        0 <= j < i && chunk_matches_src(#[trigger] self.chunks@[j], src)
                            && #[trigger] cands@[m] == Self::meta_of(self.chunks@[j], query@),
                metas_distinct_ids(cands@),
                forall|m: int|
                    0 <= m < cands@.len() ==> valid_raw_score(#[trigger] cands@[m].score as int),
            decreases n - i,
        {
            proof {
                assert(self.chunks@.take(i + 1).drop_last() =~= self.chunks@.take(i as int));
                assert(self.chunks@.take(i + 1).last() == self.chunks@[i as int]);
            }
            let sel = match source_id {
                Option::Some(sid) => crate::textutil::str_eq(
                    self.chunks[i].record.source_id.as_str(),
                    sid.as_str(),
                ),
                Option::None => true,
            };
            if sel {
                let score = dot_score(query, &self.chunks[i].vector);
                let rec = &self.chunks[i].record;
                let meta = ChunkMeta {
                    id: rec.id.clone(),
                    document_id: rec.document_id.clone(),
                    source_id: rec.source_id.clone(),
                    title: clone_opt_exact(&rec.title),
                    file_path: clone_opt_exact(&rec.file_path),
                    line_start: rec.line_start,
                    line_end: rec.line_end,
                    score,
                };
                let ghost pre = cands@;
                cands.push(meta);
                proof {
                    assert(cands@[cands@.len() - 1] == Self::meta_of(
                        self.chunks@[i as int],
                        query@,
                    ));
                    assert forall|m1: int, m2: int|
                        0 <= m1 < m2 < cands@.len() implies #[trigger] cands@[m1].id@
                        != #[trigger] cands@[m2].id@ by {
                        if m2 == cands@.len() - 1 {
                            assert(cands@[m1] == pre[m1]);
                            let j = choose|j: int|
                                0 <= j < i && chunk_matches_src(#[trigger] self.chunks@[j], src)
                                    && pre[m1] == Self::meta_of(self.chunks@[j], query@);
                            assert(self.chunks@[j].record.id@ != self.chunks@[i as int].record.id@);
                        } else {
                            assert(cands@[m1] == pre[m1] && cands@[m2] == pre[m2]);
                        }
                    }
                }
            }
            i = i + 1;
        }
        proof {
            assert(self.chunks@.take(n as int) =~= self.chunks@);
        }
        let ghost unsorted = cands@;
        sort_metas_by_score_desc(&mut cands);
        proof {
            lemma_meta_permutation_distinct_ids(unsorted, cands@);
            unsorted.to_multiset_ensures();
            cands@.to_multiset_ensures();
            assert forall|m: int| 0 <= m < cands@.len() implies (exists|j: int|
                0 <= j < self.chunks@.len() && chunk_matches_src(#[trigger] self.chunks@[j], src)
                    && #[trigger] cands@[m] == Self::meta_of(self.chunks@[j], query@))
                && valid_raw_score(cands@[m].score as int) by {
                assert(cands@.contains(cands@[m]));
                assert(cands@.to_multiset().count(cands@[m]) > 0);
                assert(unsorted.to_multiset().count(cands@[m]) > 0);
                assert(unsorted.contains(cands@[m]));
                let w = choose|w: int| 0 <= w < unsorted.len() && unsorted[w] == cands@[m];
            }
        }
        let ghost sorted_all = cands@;
        cands.truncate(limit);
        proof {
            if limit as int <= sorted_all.len() {
                assert(cands@ == sorted_all.subrange(0, limit as int));
                assert forall|m: int| 0 <= m < cands@.len() implies #[trigger] cands@[m]
                    == sorted_all[m] by {}
            }
            assert(metas_sorted_desc(cands@));
            assert(metas_distinct_ids(cands@));
        }
        cands
    }

    /// Searches the chunks most similar to the query vector.
    pub fn search(&self, query: &Vec<i64>, limit: usize) -> (r: Vec<ChunkMeta>)
        requires
            self.wf(),
            query@.len() == self.dim,
            vec_in_range(query@),
        ensures
            Self::search_post(*self, query@, Option::None, limit as int, r@),
    {
        self.search_filtered(query, limit, Option::None)
    }

    /// Sum of the stored chunk counts of the source's documents.
    pub open spec fn sum_chunks_of_source(docs: Seq<DocumentRecord>, sid: Seq<char>) -> int
        decreases docs.len(),
    {
        if docs.len() == 0 {
            0
        } else {
            Self::sum_chunks_of_source(docs.drop_last(), sid) + if docs.last().source_id@ == sid {
                docs.last().chunk_count as int
            } else {
                0
            }
        }
    }

    /// `d` is the latest ingestion time among the source's documents.
    pub open spec fn is_latest_of_source(
        docs: Seq<DocumentRecord>,
        sid: Seq<char>,
        d: Seq<char>,
    ) -> bool {
        &&& exists|j: int|
            0 <= j < docs.len() && (#[trigger] docs[j]).source_id@ == sid && docs[j].created_at@
                == d
        &&& forall|j: int|
            0 <= j < docs.len() && (#[trigger] docs[j]).source_id@ == sid ==> !crate::textutil::lex_lt(
                d,
                docs[j].created_at@,
            )
    }

    /// Some document among the first `k` belongs to the source.
    pub open spec fn docs_have(docs: Seq<DocumentRecord>, k: int, sid: Seq<char>) -> bool {
        exists|j: int| 0 <= j < k && (#[trigger] docs[j]).source_id@ == sid
    }

    /// Some aggregate row names the source.
    pub open spec fn rows_have(rows: Seq<Source>, sid: Seq<char>) -> bool {
        exists|m: int| 0 <= m < rows.len() && (#[trigger] rows[m]).id@ == sid
    }

    /// One aggregate row of `list_sources` is right for this store.
    pub open spec fn source_row_ok(docs: Seq<DocumentRecord>, s: Source) -> bool {
        &&& s.name@ == s.id@
        &&& s.description is None
        &&& s.doc_count as int == Self::count_docs_of_source(docs, s.id@)
        &&& s.chunk_count as int == Self::sum_chunks_of_source(docs, s.id@)
        &&& match s.last_indexed {
            Option::Some(d) => Self::is_latest_of_source(docs, s.id@, d@),
            Option::None => false,
        }
    }

    /// Lists every source with its document count, chunk count and the
    /// latest ingestion time observed among its documents.
    #[verifier::rlimit(100)]
    pub fn list_sources(&self) -> (r: Vec<Source>)
        requires
            self.docs@.len() <= 0x1000_0000,
        ensures
            forall|sid: Seq<char>| #[trigger]
                self.has_source(sid) <==> #[trigger] Self::rows_have(r@, sid),
            forall|m: int| 0 <= m < r@.len() ==> Self::source_row_ok(self.docs@, #[trigger] r@[m]),
            forall|m1: int, m2: int|
                0 <= m1 < m2 < r@.len() ==> (#[trigger] r@[m1]).id@ != (#[trigger] r@[m2]).id@,
    {
        let n = self.docs.len();
        let mut r: Vec<Source> = Vec::new();
        let mut i: usize = 0;
        proof {
            assert(self.docs@.take(0) =~= Seq::<DocumentRecord>::empty());
        }
        while i < n
            invariant
                0 <= i <= n,
                n == self.docs@.len(),
                n <= 0x1000_0000,
                forall|sid: Seq<char>| #[trigger]
                    Self::docs_have(self.docs@, i as int, sid) <==> #[trigger] Self::rows_have(
                        r@,
                        sid,
                    ),
                forall|m: int|
                    0 <= m < r@.len() ==> Self::source_row_ok(
                        self.docs@.take(i as int),
                        #[trigger] r@[m],
                    ),
                forall|m1: int, m2: int|
                    0 <= m1 < m2 < r@.len() ==> (#[trigger] r@[m1]).id@ != (#[trigger] r@[m2]).id@,
            decreases n - i,
        {
            proof {
                assert(self.docs@.take(i + 1).drop_last() =~= self.docs@.take(i as int));
                assert(self.docs@.take(i + 1).last() == self.docs@[i as int]);
            }
            let d = &self.docs[i];
            // find this document's source in the rows built so far
            let mut e: usize = 0;
            let ne = r.len();
            let mut found = false;
            while e < ne && !found
                invariant
                    0 <= e <= ne,
                    ne == r@.len(),
                    i < n == self.docs@.len(),
                    !found ==> forall|m: int|
                        0 <= m < e ==> (#[trigger] r@[m]).id@ != self.docs@[i as int].source_id@,
                    found ==> e < ne && r@[e as int].id@ == self.docs@[i as int].source_id@,
                decreases ne - e + (if found { 0int } else { 1 }),
            {
                if crate::textutil::str_eq(r[e].id.as_str(), self.docs[i].source_id.as_str()) {
                    found = true;
                } else {
                    e = e + 1;
                }
            }
            let ghost pre = r@;
            if found {
                let mut row = r.remove(e);
                proof {
                    assert(pre[e as int] == row);
                    lemma_source_counts_bounds(self.docs@.take(i as int), pre[e as int].id@);
                    assert(row.doc_count as int <= i as int);
                    assert((i as int) * 0x1_0000_0000 <= 0x1000_0000 * 0x1_0000_0000)
                        by (nonlinear_arith)
                        requires
                            0 <= i as int <= 0x1000_0000,
                    ;
                    assert(row.chunk_count as int <= 0x1000_0000 * 0x1_0000_0000);
                }
                row.doc_count = row.doc_count + 1;
                row.chunk_count = row.chunk_count + d.chunk_count as u64;
                let newer = match &row.last_indexed {
                    Option::Some(cur) => crate::textutil::str_lt(
                        cur.as_str(),
                        d.created_at.as_str(),
                    ),
                    Option::None => true,
                };
                if newer {
                    row.last_indexed = Option::Some(d.created_at.clone());
                }
                r.insert(e, row);
                proof {
                    assert forall|m: int| 0 <= m < r@.len() implies Self::source_row_ok(
                        self.docs@.take(i + 1),
                        #[trigger] r@[m],
                    ) by {
                        lemma_source_row_step(
                            self.docs@.take(i + 1),
                            pre[m],
                            r@[m],
                            self.docs@[i as int],
                        );
                    }
                    assert(r@.len() == pre.len());
                    assert forall|m: int| 0 <= m < r@.len() implies (#[trigger] r@[m]).id@
                        == pre[m].id@ by {
                        if m != e as int {
                            assert(r@[m] == pre[m]);
                        }
                    }
                    assert forall|sid: Seq<char>| #[trigger]
                        Self::docs_have(self.docs@, i + 1, sid) implies Self::rows_have(
                        r@,
                        sid,
                    ) by {
                        let j = choose|j: int|
                            0 <= j < i + 1 && (#[trigger] self.docs@[j]).source_id@ == sid;
                        if j < i {
                            assert(Self::docs_have(self.docs@, i as int, sid));
                            assert(Self::rows_have(pre, sid));
                            let m = choose|m: int|
                                0 <= m < pre.len() && (#[trigger] pre[m]).id@ == sid;
                            assert(r@[m].id@ == sid);
                        } else {
                            assert(r@[e as int].id@ == sid);
                        }
                    }
                    assert forall|sid: Seq<char>| #[trigger]
                        Self::rows_have(r@, sid) implies Self::docs_have(
                        self.docs@,
                        i + 1,
                        sid,
                    ) by {
                        let m = choose|m: int| 0 <= m < r@.len() && (#[trigger] r@[m]).id@ == sid;
                        assert(pre[m].id@ == sid);
                        assert(Self::rows_have(pre, sid));
                        assert(Self::docs_have(self.docs@, i as int, sid));
                        let j = choose|j: int|
                            0 <= j < i && (#[trigger] self.docs@[j]).source_id@ == sid;
                        assert(Self::docs_have(self.docs@, i + 1, sid));
                    }
                }
            } else {
                let row = Source {
                    id: d.source_id.clone(),
                    name: d.source_id.clone(),
                    description: Option::None,
                    doc_count: 1,
                    chunk_count: d.chunk_count as u64,
                    last_indexed: Option::Some(d.created_at.clone()),
                };
                r.push(row);
                proof {
                    assert(!Self::rows_have(pre, self.docs@[i as int].source_id@)) by {
                        if Self::rows_have(pre, self.docs@[i as int].source_id@) {
                            let m = choose|m: int|
                                0 <= m < pre.len() && (#[trigger] pre[m]).id@ == self.docs@[i as int].source_id@;
                        }
                    }
                    assert(!Self::docs_have(self.docs@, i as int, self.docs@[i as int].source_id@));
                    assert forall|j: int|
                        0 <= j < i implies (#[trigger] self.docs@[j]).source_id@
                        != self.docs@[i as int].source_id@ by {
                        if self.docs@[j].source_id@ == self.docs@[i as int].source_id@ {
                            assert(Self::docs_have(
                                self.docs@,
                                i as int,
                                self.docs@[i as int].source_id@,
                            ));
                        }
                    }
                    assert forall|m: int| 0 <= m < r@.len() implies Self::source_row_ok(
                        self.docs@.take(i + 1),
                        #[trigger] r@[m],
                    ) by {
                        if m < r@.len() - 1 {
                            assert(r@[m] == pre[m]);
                            lemma_source_row_step(
                                self.docs@.take(i + 1),
                                pre[m],
                                pre[m],
                                self.docs@[i as int],
                            );
                        } else {
                            lemma_source_row_new(
                                self.docs@.take(i + 1),
                                r@[m],
                                self.docs@[i as int],
                            );
                        }
                    }
                    assert forall|sid: Seq<char>| #[trigger]
                        Self::docs_have(self.docs@, i + 1, sid) implies Self::rows_have(
                        r@,
                        sid,
                    ) by {
                        let j = choose|j: int|
                            0 <= j < i + 1 && (#[trigger] self.docs@[j]).source_id@ == sid;
                        if j < i {
                            assert(Self::docs_have(self.docs@, i as int, sid));
                            assert(Self::rows_have(pre, sid));
                            let m = choose|m: int|
                                0 <= m < pre.len() && (#[trigger] pre[m]).id@ == sid;
                            assert(r@[m].id@ == sid);
                        } else {
                            assert(r@[r@.len() - 1].id@ == sid);
                        }
                    }
                    assert forall|sid: Seq<char>| #[trigger]
                        Self::rows_have(r@, sid) implies Self::docs_have(
                        self.docs@,
                        i + 1,
                        sid,
                    ) by {
                        let m = choose|m: int| 0 <= m < r@.len() && (#[trigger] r@[m]).id@ == sid;
                        if m < r@.len() - 1 {
                            assert(pre[m].id@ == sid);
                            assert(Self::rows_have(pre, sid));
                            assert(Self::docs_have(self.docs@, i as int, sid));
                            let j = choose|j: int|
                                0 <= j < i && (#[trigger] self.docs@[j]).source_id@ == sid;
                            assert(Self::docs_have(self.docs@, i + 1, sid));
                        } else {
                            assert(self.docs@[i as int].source_id@ == sid);
                            assert(Self::docs_have(self.docs@, i + 1, sid));
                        }
                    }
                }
            }
            i = i + 1;
        }
        proof {
            assert(self.docs@.take(n as int) =~= self.docs@);
            assert forall|sid: Seq<char>| #[trigger]
                self.has_source(sid) <==> Self::rows_have(r@, sid) by {
                assert(self.has_source(sid) == Self::docs_have(self.docs@, n as int, sid));
            }
        }
        r
    }

    /// Clears the whole index.
    pub fn reset_all(&mut self)
        requires
            old(self).wf(),
        ensures
            final(self).wf(),
            final(self).docs@.len() == 0,
            final(self).chunks@.len() == 0,
            final(self).dim == old(self).dim,
    {
        self.docs.clear();
        self.chunks.clear();
    }
}

} // verus!
