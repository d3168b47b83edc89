//! Result filtering and reranking: a score threshold, and a keyword-aware
//! boost that rewards results whose text contains the query's terms.

use crate::bm25::tokens_of;
use crate::outside::{ascii_lower, ascii_lower_of};
use crate::score::{valid_raw_score, RAW_SCORE_BOUND, SCORE_SCALE, SCORE_THRESHOLD};
use crate::types::SearchResult;
use vstd::prelude::*;
use vstd::string::StringExecFns;

verus! {

/// The text `t` occurs in `s`.
pub open spec fn contains_sub(s: Seq<char>, t: Seq<char>) -> bool {
    exists|i: int| 0 <= i && i + t.len() <= s.len() && #[trigger] s.subrange(i, i + t.len()) == t
}

/// Whether `t` occurs in `hay`.
#[verifier::loop_isolation(false)]
pub(crate) fn contains_sub_exec(hay: &Vec<char>, t: &Vec<char>) -> (r: bool)
    ensures
        r == contains_sub(hay@, t@),
{
    let n = hay.len();
    let m = t.len();
    if m > n {
        proof {
            assert(!contains_sub(hay@, t@));
        }
        return false;
    }
    if m == 0 {
        proof {
            assert(hay@.subrange(0, 0 + t@.len() as int) =~= t@);
            assert(contains_sub(hay@, t@));
        }
        return true;
    }
    let mut i: usize = 0;
    while i <= n - m
        invariant
            0 <= i <= n - m + 1,
            m <= n,
            n == hay@.len(),
            m == t@.len(),
            forall|j: int| 0 <= j < i ==> #[trigger] hay@.subrange(j, j + t@.len()) != t@,
        decreases n - i,
    {
        let mut k: usize = 0;
        let mut eq = true;
        while k < m && eq
            invariant
                0 <= k <= m,
                i + m <= n,
                eq ==> forall|kk: int| 0 <= kk < k ==> hay@[i + kk] == #[trigger] t@[kk],
                !eq ==> hay@.subrange(i as int, i + t@.len()) != t@,
            decreases m - k + (if eq { 1int } else { 0 }),
        {
            if hay[i + k] != t[k] {
                proof {
                    assert(hay@.subrange(i as int, i + t@.len())[k as int] == hay@[i + k]);
                }
                eq = false;
            } else {
                k = k + 1;
            }
        }
        if eq {
            proof {
                assert(hay@.subrange(i as int, i + t@.len()) =~= t@);
            }
            return true;
        }
        i = i + 1;
    }
    proof {
        assert forall|j: int| 0 <= j && j + t@.len() <= hay@.len() implies #[trigger] hay@.subrange(
            j,
            j + t@.len(),
        ) != t@ by {
            assert(j <= n - m);
        }
    }
    false
}

/// How many query terms of length three or more occur in the lowered text,
/// capped at 1000.
pub open spec fn match_count(lower: Seq<char>, qtoks: Seq<Seq<char>>) -> int
    decreases qtoks.len(),
{
    if qtoks.len() == 0 {
        0
    } else {
        let prev = match_count(lower, qtoks.drop_last());
        if qtoks.last().len() >= 3 && contains_sub(lower, qtoks.last()) && prev < 1000 {
            prev + 1
        } else {
            prev
        }
    }
}

proof fn lemma_match_count_bounds(lower: Seq<char>, qtoks: Seq<Seq<char>>)
    ensures
        0 <= match_count(lower, qtoks) <= 1000,
    decreases qtoks.len(),
{
    if qtoks.len() > 0 {
        lemma_match_count_bounds(lower, qtoks.drop_last());
    }
}

/// A result with the keyword boost applied: the score grows by `boost` per
/// matched term, saturating at the raw bound.
pub open spec fn boosted_result(x: SearchResult, qtoks: Seq<Seq<char>>, boost: int) -> SearchResult {
    let cnt = match_count(ascii_lower_of(x.content@), qtoks);
    let ns = if x.score as int + boost * cnt > RAW_SCORE_BOUND as int {
        RAW_SCORE_BOUND as int
    } else {
        x.score as int + boost * cnt
    };
    SearchResult { score: ns as i64, ..x }
}

/// The keyword boost never lowers a score and keeps every other field.
pub proof fn lemma_boost_monotone(x: SearchResult, qtoks: Seq<Seq<char>>, boost: int)
    requires
        0 <= boost <= SCORE_SCALE as int,
        valid_raw_score(x.score as int),
    ensures
        boosted_result(x, qtoks, boost).score >= x.score,
        boosted_result(x, qtoks, boost).id == x.id,
        boosted_result(x, qtoks, boost).content == x.content,
        boosted_result(x, qtoks, boost).source_id == x.source_id,
        boosted_result(x, qtoks, boost).title == x.title,
        boosted_result(x, qtoks, boost).file_path == x.file_path,
        boosted_result(x, qtoks, boost).line_start == x.line_start,
{
    lemma_match_count_bounds(ascii_lower_of(x.content@), qtoks);
    let cnt = match_count(ascii_lower_of(x.content@), qtoks);
    assert(0 <= boost * cnt) by (nonlinear_arith)
        requires
            0 <= boost,
            0 <= cnt,
    ;
}

/// The result with its score replaced by an externally computed one.
pub open spec fn rescored(x: SearchResult, s: i64) -> SearchResult {
    SearchResult { score: s, ..x }
}

/// Results ordered by score, highest first.
pub open spec fn results_sorted_desc(s: Seq<SearchResult>) -> bool {
    forall|i: int, j: int| 0 <= i < j < s.len() ==> #[trigger] s[i].score >= #[trigger] s[j].score
}

/// Sorts results by score, highest first, keeping the same collection.
#[verifier::rlimit(100)]
pub fn sort_results_by_score_desc(v: &mut Vec<SearchResult>)
    ensures
        final(v)@.len() == old(v)@.len(),
        final(v)@.to_multiset() == old(v)@.to_multiset(),
        results_sorted_desc(final(v)@),
{
    broadcast use vstd::seq_lib::group_to_multiset_ensures;
    broadcast use vstd::multiset::group_multiset_axioms;

    let n = v.len();
    if n <= 1 {
        return ;
    }
    let ghost orig = v@;
    let mut i: usize = 1;
    while i < n
        invariant
            1 <= i <= n,
            v@.len() == n,
            v@.to_multiset() == orig.to_multiset(),
            results_sorted_desc(v@.take(i as int)),
        decreases n - i,
    {
        let ghost pre = v@;
        let x = v.remove(i);
        proof {
            vstd::seq_lib::to_multiset_remove(pre, i as int);
        }
        let mut j: usize = i;
        while j > 0 && v[j - 1].score < x.score
            invariant
                0 <= j <= i,
                i < n,
                v@.len() == n - 1,
                v@ == pre.remove(i as int),
                forall|m: int| j <= m < i ==> #[trigger] v@[m].score < x.score,
            decreases j,
        {
            j = j - 1;
        }
        let ghost mid = v@;
        v.insert(j, x);
        proof {
            assert(v@ == mid.insert(j as int, x));
            vstd::seq_lib::to_multiset_insert(mid, j as int, x);
            pre.to_multiset_ensures();
            assert(pre.contains(pre[i as int]));
            assert(pre.to_multiset().count(pre[i as int]) > 0);
            assert(v@.to_multiset() =~= pre.to_multiset());
            assert forall|p: int, q: int| 0 <= p < q < i + 1 implies #[trigger] v@[p].score
                >= #[trigger] v@[q].score by {
                assert(forall|m: int| 0 <= m < j ==> v@[m] == #[trigger] mid[m]);
                assert(v@[j as int] == x);
                assert(forall|m: int| j < m <= i ==> v@[m] == #[trigger] mid[m - 1]);
                assert(forall|m: int| 0 <= m < i ==> mid[m] == #[trigger] pre[m]);
                assert(results_sorted_desc(pre.take(i as int)));
                assert(forall|p0: int, q0: int|
                    0 <= p0 < q0 < i ==> #[trigger] pre[p0].score >= #[trigger] pre[q0].score);
                if p == j as int {
                    assert(q > j);
                    assert(v@[q].score == pre[q - 1].score);
                    assert(j <= q - 1 < i);
                    assert(pre[q - 1].score < x.score);
                } else if q == j as int {
                    assert(p < j);
                    assert(v@[p].score == pre[p].score);
                    assert(j > 0 ==> pre[j - 1].score >= x.score);
                    assert(pre[p].score >= pre[j - 1].score || p == j - 1);
                } else if p < j && q > j {
                    assert(v@[p].score == pre[p].score && v@[q].score == pre[q - 1].score);
                } else if p < j && q < j {
                    assert(v@[p].score == pre[p].score && v@[q].score == pre[q].score);
                } else {
                    assert(v@[p].score == pre[p - 1].score && v@[q].score == pre[q - 1].score);
                }
            }
            assert(results_sorted_desc(v@.take(i as int + 1)));
        }
        i = i + 1;
    }
    assert(v@.take(n as int) =~= v@);
}

/// The search engine's result shaping: a score threshold and a keyword
/// boost.
pub struct SearchEngine {
    pub min_score: i64,
    pub keyword_boost: i64,
}

impl SearchEngine {
    /// The defaults: results below `0.3` are dropped, and each matched query
    /// term adds `0.01`.
    pub fn new() -> (r: Self)
        ensures
            r.min_score == SCORE_THRESHOLD,
            r.keyword_boost == 10_000,
    {
        SearchEngine { min_score: SCORE_THRESHOLD, keyword_boost: 10_000 }
    }

    /// Drops every result scoring below the threshold, keeping the order.
    pub fn filter_results(&self, results: Vec<SearchResult>) -> (r: Vec<SearchResult>)
        ensures
            r@ == results@.filter(|x: SearchResult| x.score >= self.min_score),
    {
        let ghost orig = results@;
        let mut results = results;
        let mut r: Vec<SearchResult> = Vec::new();
        let n = results.len();
        let mut i: usize = 0;
        while i < n
            invariant
                0 <= i <= n,
                n == orig.len(),
                results@ == orig.skip(i as int),
                r@ == orig.take(i as int).filter(|x: SearchResult| x.score >= self.min_score),
            decreases n - i,
        {
            let x = results.remove(0);
            proof {
                reveal(Seq::filter);
                assert(orig.skip(i as int)[0] == orig[i as int]);
                assert(orig.skip(i as int).remove(0) =~= orig.skip(i + 1));
                assert(orig.take(i + 1).drop_last() =~= orig.take(i as int));
                assert(orig.take(i + 1).last() == orig[i as int]);
            }
            if x.score >= self.min_score {
                r.push(x);
            }
            i = i + 1;
        }
        proof {
            assert(orig.take(n as int) =~= orig);
        }
        r
    }

    /// Cross-encoder rerank: each result's score is replaced by the score
    /// standing at its position — the cross-encoder itself runs outside the
    /// library, so its scores arrive as inputs — and the list is re-sorted
    /// by score, highest first.
    pub fn rerank_with_scores(&self, results: Vec<SearchResult>, scores: &Vec<i64>) -> (r: Vec<
        SearchResult,
    >)
        requires
            results@.len() == scores@.len(),
        ensures
            r@.len() == results@.len(),
            r@.to_multiset() == results@.map(
                |m: int, x: SearchResult| rescored(x, scores@[m]),
            ).to_multiset(),
            results_sorted_desc(r@),
    {
        let ghost orig = results@;
        let mut results = results;
        let mut attached: Vec<SearchResult> = Vec::new();
        let n = results.len();
        let mut i: usize = 0;
        while i < n
            invariant
                0 <= i <= n,
                n == orig.len(),
                n == scores@.len(),
                results@ == orig.skip(i as int),
                attached@.len() == i,
                forall|m: int|
                    0 <= m < i ==> #[trigger] attached@[m] == rescored(orig[m], scores@[m]),
            decreases n - i,
        {
            let mut x = results.remove(0);
            proof {
                assert(orig.skip(i as int)[0] == orig[i as int]);
                assert(orig.skip(i as int).remove(0) =~= orig.skip(i + 1));
            }
            x.score = scores[i];
            attached.push(x);
            i = i + 1;
        }
        proof {
            assert(attached@ =~= orig.map(|m: int, x: SearchResult| rescored(x, scores@[m])));
        }
        let mut r = attached;
        sort_results_by_score_desc(&mut r);
        r
    }

    /// Keyword-aware rerank: each result's score grows by the boost for
    /// every query term of length three or more found in its text, and the
    /// list is re-sorted by score, highest first.
    #[verifier::loop_isolation(false)]
    pub fn rerank_with_keywords(&self, results: Vec<SearchResult>, query: &str) -> (r: Vec<
        SearchResult,
    >)
        requires
            0 <= self.keyword_boost <= SCORE_SCALE,
            forall|i: int|
                0 <= i < results@.len() ==> valid_raw_score((#[trigger] results@[i]).score as int),
        ensures
            r@.to_multiset() == results@.map_values(
                |x: SearchResult| boosted_result(x, tokens_of(query@), self.keyword_boost as int),
            ).to_multiset(),
            r@.len() == results@.len(),
            results_sorted_desc(r@),
    {
        let qv = crate::bm25::tokenize(query);
        let ghost qtoks = tokens_of(query@);
        let nq = qv.len();
        let ghost orig = results@;
        let mut results = results;
        let mut boosted: Vec<SearchResult> = Vec::new();
        let n = results.len();
        let mut i: usize = 0;
        while i < n
            invariant
                0 <= i <= n,
                n == orig.len(),
                results@ == orig.skip(i as int),
                boosted@.len() == i,
                forall|m: int|
                    0 <= m < i ==> #[trigger] boosted@[m] == boosted_result(
                        orig[m],
                        qtoks,
                        self.keyword_boost as int,
                    ),
            decreases n - i,
        {
            let x = results.remove(0);
            proof {
                assert(orig.skip(i as int)[0] == orig[i as int]);
                assert(orig.skip(i as int).remove(0) =~= orig.skip(i + 1));
            }
            let lower = ascii_lower(x.content.as_str());
            let lv = crate::textutil::to_chars(lower.as_str());
            let mut cnt: i64 = 0;
            let mut k: usize = 0;
            proof {
                assert(qtoks.take(0) =~= Seq::<Seq<char>>::empty());
            }
            while k < nq
                invariant
                    0 <= k <= nq,
                    i < n,
                    lv@ == ascii_lower_of(orig[i as int].content@),
                    cnt as int == match_count(lv@, qtoks.take(k as int)),
                    0 <= cnt <= 1000,
                decreases nq - k,
            {
                proof {
                    assert(qtoks.take(k + 1).drop_last() =~= qtoks.take(k as int));
                    assert(qtoks.take(k + 1).last() == qtoks[k as int]);
                    assert(qv@.map_values(|t: String| t@)[k as int] == qtoks[k as int]);
                }
                let tv = crate::textutil::to_chars(qv[k].as_str());
                if tv.len() >= 3 && cnt < 1000 && contains_sub_exec(&lv, &tv) {
                    cnt = cnt + 1;
                }
                k = k + 1;
            }
            proof {
                assert(qtoks.take(nq as int) =~= qtoks);
                assert(0 <= (self.keyword_boost as int) * (cnt as int) <= 1_000_000_000)
                    by (nonlinear_arith)
                    requires
                        0 <= self.keyword_boost as int <= 1_000_000,
                        0 <= cnt as int <= 1000,
                ;
            }
            let add = self.keyword_boost * cnt;
            let ns: i64 = if x.score > RAW_SCORE_BOUND - add {
                RAW_SCORE_BOUND
            } else {
                x.score + add
            };
            boosted.push(SearchResult { score: ns, ..x });
            i = i + 1;
        }
        proof {
            assert(boosted@ =~= orig.map_values(
                |x: SearchResult| boosted_result(x, qtoks, self.keyword_boost as int),
            ));
        }
        sort_results_by_score_desc(&mut boosted);
        boosted
    }
}

} // verus!
