//! Fixed-point relevance scores and min-max normalization.
//!
//! A score is an `i64` counted in millionths: `1_000_000` stands for `1.0`.
//! Raw scores coming from the vector index or the keyword index are bounded by
//! `RAW_SCORE_BOUND`; normalized scores always lie in `[0, SCORE_SCALE]`.

use vstd::prelude::*;
use vstd::arithmetic::mul::{lemma_mul_inequality, lemma_mul_is_commutative};
use vstd::arithmetic::div_mod::{lemma_div_is_ordered, lemma_div_multiples_vanish};
use vstd::seq_lib::group_to_multiset_ensures;
use vstd::multiset::group_multiset_axioms;

verus! {

/// One whole unit of score: a score of `SCORE_SCALE` millionths means `1.0`.
pub const SCORE_SCALE: i64 = 1_000_000;

/// Bound on the magnitude of raw (un-normalized) scores.
pub const RAW_SCORE_BOUND: i64 = 1_000_000_000_000;

pub open spec fn valid_raw_score(s: int) -> bool {
    -(RAW_SCORE_BOUND as int) <= s <= RAW_SCORE_BOUND as int
}

pub open spec fn all_valid_raw(s: Seq<i64>) -> bool {
    forall|i: int| 0 <= i < s.len() ==> valid_raw_score(#[trigger] s[i] as int)
}

/// Least element of a non-empty score sequence (0 when empty).
pub open spec fn min_score(s: Seq<i64>) -> int
    decreases s.len(),
{
    if s.len() == 0 {
        0
    } else if s.len() == 1 {
        s[0] as int
    } else {
        let m = min_score(s.drop_last());
        if (s.last() as int) < m {
            s.last() as int
        } else {
            m
        }
    }
}

/// Greatest element of a non-empty score sequence (0 when empty).
pub open spec fn max_score(s: Seq<i64>) -> int
    decreases s.len(),
{
    if s.len() == 0 {
        0
    } else if s.len() == 1 {
        s[0] as int
    } else {
        let m = max_score(s.drop_last());
        if (s.last() as int) > m {
            s.last() as int
        } else {
            m
        }
    }
}

/// What min-max normalization assigns to the `i`-th score of `scores`:
/// `(s - min) / (max - min)` in millionths, or a full `SCORE_SCALE` when the
/// range is zero.
pub open spec fn normalized_value(scores: Seq<i64>, i: int) -> int {
    let mn = min_score(scores);
    let mx = max_score(scores);
    if mx == mn {
        SCORE_SCALE as int
    } else {
        (scores[i] as int - mn) * (SCORE_SCALE as int) / (mx - mn)
    }
}

/// The scores of a sequence of `(id, score)` pairs, in order.
pub open spec fn score_seq(s: Seq<(String, i64)>) -> Seq<i64> {
    s.map_values(|p: (String, i64)| p.1)
}

pub proof fn lemma_min_max_bounds(s: Seq<i64>)
    ensures
        forall|i: int| 0 <= i < s.len() ==> min_score(s) <= #[trigger] s[i] as int <= max_score(s),
    decreases s.len(),
{
    if s.len() > 1 {
        lemma_min_max_bounds(s.drop_last());
        assert(forall|i: int|
            0 <= i < s.len() - 1 ==> s.drop_last()[i] == #[trigger] s[i]);
    }
}

pub proof fn lemma_min_is_element(s: Seq<i64>)
    requires
        s.len() > 0,
    ensures
        exists|i: int| 0 <= i < s.len() && s[i] as int == min_score(s),
    decreases s.len(),
{
    if s.len() == 1 {
        assert(s[0] as int == min_score(s));
    } else {
        lemma_min_is_element(s.drop_last());
        if (s.last() as int) < min_score(s.drop_last()) {
            assert(s[s.len() - 1] as int == min_score(s));
        } else {
            let i = choose|i: int|
                0 <= i < s.drop_last().len() && s.drop_last()[i] as int == min_score(s.drop_last());
            assert(s[i] as int == min_score(s));
        }
    }
}

pub proof fn lemma_max_is_element(s: Seq<i64>)
    requires
        s.len() > 0,
    ensures
        exists|i: int| 0 <= i < s.len() && s[i] as int == max_score(s),
    decreases s.len(),
{
    if s.len() == 1 {
        assert(s[0] as int == max_score(s));
    } else {
        lemma_max_is_element(s.drop_last());
        if (s.last() as int) > max_score(s.drop_last()) {
            assert(s[s.len() - 1] as int == max_score(s));
        } else {
            let i = choose|i: int|
                0 <= i < s.drop_last().len() && s.drop_last()[i] as int == max_score(s.drop_last());
            assert(s[i] as int == max_score(s));
        }
    }
}

/// Every normalized value lies in `[0, SCORE_SCALE]`.
pub proof fn lemma_normalized_value_bounds(scores: Seq<i64>, i: int)
    requires
        0 <= i < scores.len(),
    ensures
        0 <= normalized_value(scores, i) <= SCORE_SCALE as int,
{
    let mn = min_score(scores);
    let mx = max_score(scores);
    lemma_min_max_bounds(scores);
    if mx != mn {
        let x = scores[i] as int - mn;
        let range = mx - mn;
        assert(0 <= x <= range);
        lemma_mul_inequality(x, range, SCORE_SCALE as int);
        lemma_div_is_ordered(x * (SCORE_SCALE as int), range * (SCORE_SCALE as int), range);
        lemma_mul_is_commutative(range, SCORE_SCALE as int);
        lemma_div_multiples_vanish(SCORE_SCALE as int, range);
        assert(range * (SCORE_SCALE as int) / range == SCORE_SCALE as int);
        lemma_div_is_ordered(0, x * (SCORE_SCALE as int), range);
    }
}

/// A single score always normalizes to the full `SCORE_SCALE` (that is, `1.0`).
pub proof fn lemma_normalize_single(scores: Seq<i64>)
    requires
        scores.len() == 1,
    ensures
        normalized_value(scores, 0) == SCORE_SCALE as int,
{
}

/// When all scores are equal, every one normalizes to the full `SCORE_SCALE`.
pub proof fn lemma_normalize_all_equal(scores: Seq<i64>, i: int)
    requires
        scores.len() > 0,
        forall|j: int| 0 <= j < scores.len() ==> #[trigger] scores[j] == scores[0],
        0 <= i < scores.len(),
    ensures
        normalized_value(scores, i) == SCORE_SCALE as int,
{
    lemma_min_is_element(scores);
    lemma_max_is_element(scores);
}

/// Min-max normalization of `(id, score)` pairs: ids and order are kept; each
/// score is mapped to `(s - min) / (max - min)` in millionths, with a zero
/// range (including a single element) mapping everything to `SCORE_SCALE`.
/// An empty input yields an empty output.
pub fn normalize_scores(scores: &Vec<(String, i64)>) -> (r: Vec<(String, i64)>)
    requires
        all_valid_raw(score_seq(scores@)),
    ensures
        r@.len() == scores@.len(),
        forall|i: int| 0 <= i < r@.len() ==> #[trigger] r@[i].0 == scores@[i].0,
        forall|i: int|
            0 <= i < r@.len() ==> #[trigger] r@[i].1 as int == normalized_value(
                score_seq(scores@),
                i,
            ),
        forall|i: int| 0 <= i < r@.len() ==> 0 <= #[trigger] r@[i].1 <= SCORE_SCALE,
{
    let ghost sseq = score_seq(scores@);
    let n = scores.len();
    let mut r: Vec<(String, i64)> = Vec::new();
    if n == 0 {
        return r;
    }

    let mut mn: i64 = scores[0].1;
    let mut mx: i64 = scores[0].1;
    let mut k: usize = 1;
    assert(sseq.take(1).len() == 1 && sseq.take(1)[0] == sseq[0]);
    while k < n
        invariant
            1 <= k <= n,
            n == scores@.len(),
            sseq == score_seq(scores@),
            mn as int == min_score(sseq.take(k as int)),
            mx as int == max_score(sseq.take(k as int)),
        decreases n - k,
    {
        let s = scores[k].1;
        proof {
            let t1 = sseq.take(k as int + 1);
            assert(t1.drop_last() =~= sseq.take(k as int));
            assert(t1.last() == sseq[k as int]);
        }
        if s < mn {
            mn = s;
        }
        if s > mx {
            mx = s;
        }
        k = k + 1;
    }
    assert(sseq.take(n as int) =~= sseq);

    proof {
        lemma_min_max_bounds(sseq);
        lemma_min_is_element(sseq);
        lemma_max_is_element(sseq);
    }

    let mut i: usize = 0;
    while i < n
        invariant
            0 <= i <= n,
            n == scores@.len(),
            sseq == score_seq(scores@),
            mn as int == min_score(sseq),
            mx as int == max_score(sseq),
            all_valid_raw(sseq),
            valid_raw_score(mn as int),
            valid_raw_score(mx as int),
            forall|j: int| 0 <= j < sseq.len() ==> mn as int <= #[trigger] sseq[j] as int <= mx as int,
            r@.len() == i,
            forall|j: int| 0 <= j < i ==> #[trigger] r@[j].0 == scores@[j].0,
            forall|j: int| 0 <= j < i ==> #[trigger] r@[j].1 as int == normalized_value(sseq, j),
            forall|j: int| 0 <= j < i ==> 0 <= #[trigger] r@[j].1 <= SCORE_SCALE,
        decreases n - i,
    {
        let id = scores[i].0.clone();
        let s = scores[i].1;
        assert(sseq[i as int] == s);
        let v: i64 = if mx == mn {
            SCORE_SCALE
        } else {
            proof {
                let x = s as int - mn as int;
                let range = mx as int - mn as int;
                lemma_mul_inequality(x, range, SCORE_SCALE as int);
                lemma_div_is_ordered(x * (SCORE_SCALE as int), range * (SCORE_SCALE as int), range);
                lemma_mul_is_commutative(range, SCORE_SCALE as int);
                lemma_div_multiples_vanish(SCORE_SCALE as int, range);
                lemma_div_is_ordered(0, x * (SCORE_SCALE as int), range);
            }
            (s - mn) * SCORE_SCALE / (mx - mn)
        };
        proof {
            lemma_normalized_value_bounds(sseq, i as int);
        }
        r.push((id, v));
        i = i + 1;
    }
    r
}

/// Weight of the dense vector score in the convex fusion (`0.8` in millionths).
pub const VECTOR_WEIGHT: i64 = 800_000;

/// Weight of the keyword score in the convex fusion (`0.2` in millionths).
pub const KEYWORD_WEIGHT: i64 = 200_000;

/// Fused results scoring below this threshold (`0.3` in millionths) are dropped.
pub const SCORE_THRESHOLD: i64 = 300_000;

pub open spec fn contains_id(s: Seq<(String, i64)>, id: Seq<char>) -> bool {
    exists|i: int| 0 <= i < s.len() && #[trigger] s[i].0@ == id
}

pub open spec fn distinct_ids(s: Seq<(String, i64)>) -> bool {
    forall|i: int, j: int| 0 <= i < j < s.len() ==> #[trigger] s[i].0@ != #[trigger] s[j].0@
}

pub open spec fn index_of_id(s: Seq<(String, i64)>, id: Seq<char>) -> int {
    choose|i: int| 0 <= i < s.len() && #[trigger] s[i].0@ == id
}

/// The normalized contribution of list `s` for chunk `id`: its min-max
/// normalized score when the id is present, zero when it is absent.
pub open spec fn norm_lookup(s: Seq<(String, i64)>, id: Seq<char>) -> int {
    if contains_id(s, id) {
        normalized_value(score_seq(s), index_of_id(s, id))
    } else {
        0
    }
}

/// Convex fusion of the two normalized contributions for `id`, in millionths:
/// `0.8 * vector + 0.2 * keyword`.
pub open spec fn fused_value(
    vec_results: Seq<(String, i64)>,
    kw_results: Seq<(String, i64)>,
    id: Seq<char>,
) -> int {
    ((VECTOR_WEIGHT as int) * norm_lookup(vec_results, id) + (KEYWORD_WEIGHT as int) * norm_lookup(
        kw_results,
        id,
    )) / (SCORE_SCALE as int)
}

pub open spec fn sorted_desc(s: Seq<(String, i64)>) -> bool {
    forall|i: int, j: int| 0 <= i < j < s.len() ==> #[trigger] s[i].1 >= #[trigger] s[j].1
}

/// Score monotonicity under fusion: when both fused inputs for id `a` dominate
/// those for id `b` component-wise, the fused score of `a` is at least the
/// fused score of `b`.
pub proof fn lemma_fusion_monotone(
    vec_results: Seq<(String, i64)>,
    kw_results: Seq<(String, i64)>,
    a: Seq<char>,
    b: Seq<char>,
)
    requires
        norm_lookup(vec_results, b) <= norm_lookup(vec_results, a),
        norm_lookup(kw_results, b) <= norm_lookup(kw_results, a),
    ensures
        fused_value(vec_results, kw_results, b) <= fused_value(vec_results, kw_results, a),
{
    let va = norm_lookup(vec_results, a);
    let vb = norm_lookup(vec_results, b);
    let ka = norm_lookup(kw_results, a);
    let kb = norm_lookup(kw_results, b);
    lemma_mul_inequality(vb, va, VECTOR_WEIGHT as int);
    lemma_mul_inequality(kb, ka, KEYWORD_WEIGHT as int);
    lemma_mul_is_commutative(vb, VECTOR_WEIGHT as int);
    lemma_mul_is_commutative(va, VECTOR_WEIGHT as int);
    lemma_mul_is_commutative(kb, KEYWORD_WEIGHT as int);
    lemma_mul_is_commutative(ka, KEYWORD_WEIGHT as int);
    lemma_div_is_ordered(
        (VECTOR_WEIGHT as int) * vb + (KEYWORD_WEIGHT as int) * kb,
        (VECTOR_WEIGHT as int) * va + (KEYWORD_WEIGHT as int) * ka,
        SCORE_SCALE as int,
    );
}

/// When the ids of one pair sequence are distinct, the pairs themselves have
/// no duplicates.
pub proof fn lemma_distinct_ids_no_duplicates(s: Seq<(String, i64)>)
    requires
        distinct_ids(s),
    ensures
        s.no_duplicates(),
{
    assert forall|i: int, j: int|
        0 <= i < s.len() && 0 <= j < s.len() && i != j implies s[i] != s[j] by {
        if i < j {
            assert(s[i].0@ != s[j].0@);
        } else {
            assert(s[j].0@ != s[i].0@);
        }
    }
}

/// A permutation of a sequence with distinct ids again has distinct ids.
pub proof fn lemma_permutation_distinct_ids(a: Seq<(String, i64)>, b: Seq<(String, i64)>)
    requires
        a.to_multiset() == b.to_multiset(),
        distinct_ids(a),
    ensures
        distinct_ids(b),
{
    broadcast use group_to_multiset_ensures;
    broadcast use group_multiset_axioms;

    lemma_distinct_ids_no_duplicates(a);
    a.lemma_multiset_has_no_duplicates();
    b.lemma_multiset_has_no_duplicates_conv();
    assert forall|i: int, j: int| 0 <= i < j < b.len() implies #[trigger] b[i].0@
        != #[trigger] b[j].0@ by {
        if b[i].0@ == b[j].0@ {
            assert(b.contains(b[i]));
            assert(b.contains(b[j]));
            assert(b.to_multiset().count(b[i]) > 0);
            assert(b.to_multiset().count(b[j]) > 0);
            assert(a.to_multiset().count(b[i]) > 0);
            assert(a.to_multiset().count(b[j]) > 0);
            assert(a.contains(b[i]));
            assert(a.contains(b[j]));
            let i1 = choose|k: int| 0 <= k < a.len() && a[k] == b[i];
            let i2 = choose|k: int| 0 <= k < a.len() && a[k] == b[j];
            assert(b[i] != b[j]);
            assert(i1 != i2);
            assert(a[i1].0@ != a[i2].0@);
        }
    }
}

/// In a sequence with distinct ids, the chosen index of the id of entry `i`
/// is `i` itself.
pub proof fn lemma_index_of_id_unique(s: Seq<(String, i64)>, i: int)
    requires
        distinct_ids(s),
        0 <= i < s.len(),
    ensures
        contains_id(s, s[i].0@),
        index_of_id(s, s[i].0@) == i,
{
    assert(contains_id(s, s[i].0@));
    let j = index_of_id(s, s[i].0@);
    assert(0 <= j < s.len() && s[j].0@ == s[i].0@);
    if j < i {
        assert(s[j].0@ != s[i].0@);
    } else if i < j {
        assert(s[i].0@ != s[j].0@);
    }
}

/// Permuting a sequence of `(id, score)` pairs keeps the set of ids.
pub proof fn lemma_permutation_contains_id(a: Seq<(String, i64)>, b: Seq<(String, i64)>)
    requires
        a.to_multiset() == b.to_multiset(),
    ensures
        forall|id: Seq<char>| #[trigger] contains_id(a, id) <==> contains_id(b, id),
{
    a.to_multiset_ensures();
    b.to_multiset_ensures();
    assert forall|id: Seq<char>| #[trigger] contains_id(a, id) <==> contains_id(b, id) by {
        if contains_id(a, id) {
            let i = choose|i: int| 0 <= i < a.len() && #[trigger] a[i].0@ == id;
            assert(a.contains(a[i]));
            assert(a.to_multiset().count(a[i]) > 0);
            assert(b.to_multiset().count(a[i]) > 0);
            assert(b.contains(a[i]));
            let k = choose|k: int| 0 <= k < b.len() && b[k] == a[i];
            assert(b[k].0@ == id);
            assert(contains_id(b, id));
        }
        if contains_id(b, id) {
            let i = choose|i: int| 0 <= i < b.len() && #[trigger] b[i].0@ == id;
            assert(b.contains(b[i]));
            assert(b.to_multiset().count(b[i]) > 0);
            assert(a.to_multiset().count(b[i]) > 0);
            assert(a.contains(b[i]));
            let k = choose|k: int| 0 <= k < a.len() && a[k] == b[i];
            assert(a[k].0@ == id);
            assert(contains_id(a, id));
        }
    }
}

/// Linear search for `id`; returns its score when present.
fn find_score(s: &Vec<(String, i64)>, id: &String) -> (r: Option<i64>)
    ensures
        match r {
            Some(v) => contains_id(s@, id@) && exists|i: int|
                0 <= i < s@.len() && #[trigger] s@[i].0@ == id@ && s@[i].1 == v,
            None => !contains_id(s@, id@),
        },
{
    let n = s.len();
    let mut i: usize = 0;
    while i < n
        invariant
            0 <= i <= n,
            n == s@.len(),
            forall|j: int| 0 <= j < i ==> #[trigger] s@[j].0@ != id@,
        decreases n - i,
    {
        if s[i].0 == *id {
            return Some(s[i].1);
        }
        i = i + 1;
    }
    None
}

/// Convex fusion of vector and keyword results: both lists are min-max
/// normalized, then every id appearing in either list gets the weighted sum
/// `0.8 * vector + 0.2 * keyword` (a missing component contributes zero), and
/// the combined list is sorted by fused score, highest first.
pub fn convex_fusion(
    vec_results: &Vec<(String, i64)>,
    kw_results: &Vec<(String, i64)>,
) -> (r: Vec<(String, i64)>)
    requires
        all_valid_raw(score_seq(vec_results@)),
        all_valid_raw(score_seq(kw_results@)),
        distinct_ids(vec_results@),
        distinct_ids(kw_results@),
    ensures
        distinct_ids(r@),
        sorted_desc(r@),
        forall|id: Seq<char>| #[trigger] contains_id(r@, id) <==> (contains_id(vec_results@, id)
            || contains_id(kw_results@, id)),
        forall|i: int| 0 <= i < r@.len() ==> #[trigger] r@[i].1 as int == fused_value(
            vec_results@,
            kw_results@,
            r@[i].0@,
        ),
        forall|i: int| 0 <= i < r@.len() ==> 0 <= #[trigger] r@[i].1 <= SCORE_SCALE,
        r@.len() <= vec_results@.len() + kw_results@.len(),
{
    let vn = normalize_scores(vec_results);
    let kn = normalize_scores(kw_results);
    let nv = vn.len();
    let nk = kn.len();
    proof {
        assert(forall|i: int, j: int|
            0 <= i < j < vn@.len() ==> #[trigger] vn@[i].0@ != #[trigger] vn@[j].0@);
        assert(forall|i: int, j: int|
            0 <= i < j < kn@.len() ==> #[trigger] kn@[i].0@ != #[trigger] kn@[j].0@);
    }

    let mut out: Vec<(String, i64)> = Vec::new();
    let mut i: usize = 0;
    while i < nv
        invariant
            0 <= i <= nv,
            nv == vn@.len() == vec_results@.len(),
            nk == kn@.len() == kw_results@.len(),
            all_valid_raw(score_seq(vec_results@)),
            all_valid_raw(score_seq(kw_results@)),
            distinct_ids(vec_results@),
            distinct_ids(kw_results@),
            forall|m: int| 0 <= m < nv ==> #[trigger] vn@[m].0 == vec_results@[m].0,
            forall|m: int| 0 <= m < nv ==> #[trigger] vn@[m].1 as int == normalized_value(
                score_seq(vec_results@),
                m,
            ),
            forall|m: int| 0 <= m < nv ==> 0 <= #[trigger] vn@[m].1 <= SCORE_SCALE,
            forall|m: int| 0 <= m < nk ==> #[trigger] kn@[m].0 == kw_results@[m].0,
            forall|m: int| 0 <= m < nk ==> #[trigger] kn@[m].1 as int == normalized_value(
                score_seq(kw_results@),
                m,
            ),
            forall|m: int| 0 <= m < nk ==> 0 <= #[trigger] kn@[m].1 <= SCORE_SCALE,
            out@.len() == i,
            forall|m: int| 0 <= m < i ==> #[trigger] out@[m].0 == vec_results@[m].0,
            forall|m: int| 0 <= m < i ==> #[trigger] out@[m].1 as int == fused_value(
                vec_results@,
                kw_results@,
                out@[m].0@,
            ),
            forall|m: int| 0 <= m < i ==> 0 <= #[trigger] out@[m].1 <= SCORE_SCALE,
        decreases nv - i,
    {
        let id = vn[i].0.clone();
        let vs = vn[i].1;
        let ks = find_score(&kn, &id);
        proof {
            lemma_index_of_id_unique(vec_results@, i as int);
            assert(norm_lookup(vec_results@, id@) == vs as int);
        }
        let fused: i64 = match ks {
            Some(k) => {
                proof {
                    let jj = choose|jj: int|
                        0 <= jj < kn@.len() && #[trigger] kn@[jj].0@ == id@ && kn@[jj].1 == k;
                    lemma_index_of_id_unique(kw_results@, jj);
                    assert(norm_lookup(kw_results@, id@) == k as int);
                    lemma_mul_inequality(vs as int, SCORE_SCALE as int, VECTOR_WEIGHT as int);
                    lemma_mul_inequality(k as int, SCORE_SCALE as int, KEYWORD_WEIGHT as int);
                    lemma_mul_inequality(0, vs as int, VECTOR_WEIGHT as int);
                    lemma_mul_inequality(0, k as int, KEYWORD_WEIGHT as int);
                    lemma_mul_is_commutative(vs as int, VECTOR_WEIGHT as int);
                    lemma_mul_is_commutative(k as int, KEYWORD_WEIGHT as int);
                    lemma_mul_is_commutative(SCORE_SCALE as int, VECTOR_WEIGHT as int);
                    lemma_mul_is_commutative(SCORE_SCALE as int, KEYWORD_WEIGHT as int);
                }
                (VECTOR_WEIGHT * vs + KEYWORD_WEIGHT * k) / SCORE_SCALE
            },
            None => {
                proof {
                    assert(!contains_id(kn@, id@));
                    assert forall|jj: int| 0 <= jj < kw_results@.len() implies #[trigger] kw_results@[jj].0@
                        != id@ by {
                        assert(kn@[jj].0 == kw_results@[jj].0);
                    }
                    assert(!contains_id(kw_results@, id@));
                    assert(norm_lookup(kw_results@, id@) == 0);
                    lemma_mul_inequality(vs as int, SCORE_SCALE as int, VECTOR_WEIGHT as int);
                    lemma_mul_inequality(0, vs as int, VECTOR_WEIGHT as int);
                    lemma_mul_is_commutative(vs as int, VECTOR_WEIGHT as int);
                    lemma_mul_is_commutative(SCORE_SCALE as int, VECTOR_WEIGHT as int);
                }
                VECTOR_WEIGHT * vs / SCORE_SCALE
            },
        };
        proof {
            let num = (VECTOR_WEIGHT as int) * norm_lookup(vec_results@, id@) + (
            KEYWORD_WEIGHT as int) * norm_lookup(kw_results@, id@);
            lemma_div_is_ordered(0, num, SCORE_SCALE as int);
            lemma_div_is_ordered(
                num,
                (VECTOR_WEIGHT as int) * (SCORE_SCALE as int) + (KEYWORD_WEIGHT as int) * (
                SCORE_SCALE as int),
                SCORE_SCALE as int,
            );
            assert((VECTOR_WEIGHT as int) * (SCORE_SCALE as int) + (KEYWORD_WEIGHT as int) * (
            SCORE_SCALE as int) == (SCORE_SCALE as int) * (SCORE_SCALE as int));
            lemma_div_multiples_vanish(SCORE_SCALE as int, SCORE_SCALE as int);
        }
        out.push((id, fused));
        i = i + 1;
    }

    proof {
        assert forall|p: int, q: int| 0 <= p < q < out@.len() implies #[trigger] out@[p].0@
            != #[trigger] out@[q].0@ by {
            assert(out@[p].0 == vec_results@[p].0 && out@[q].0 == vec_results@[q].0);
        }
        assert(distinct_ids(out@));
    }
    let mut j: usize = 0;
    while j < nk
        invariant
            0 <= j <= nk,
            nv == vn@.len() == vec_results@.len(),
            nk == kn@.len() == kw_results@.len(),
            all_valid_raw(score_seq(vec_results@)),
            all_valid_raw(score_seq(kw_results@)),
            distinct_ids(vec_results@),
            distinct_ids(kw_results@),
            forall|m: int| 0 <= m < nv ==> #[trigger] vn@[m].0 == vec_results@[m].0,
            forall|m: int| 0 <= m < nv ==> #[trigger] vn@[m].1 as int == normalized_value(
                score_seq(vec_results@),
                m,
            ),
            forall|m: int| 0 <= m < nk ==> #[trigger] kn@[m].0 == kw_results@[m].0,
            forall|m: int| 0 <= m < nk ==> #[trigger] kn@[m].1 as int == normalized_value(
                score_seq(kw_results@),
                m,
            ),
            forall|m: int| 0 <= m < nk ==> 0 <= #[trigger] kn@[m].1 <= SCORE_SCALE,
            nv <= out@.len() <= nv + j,
            forall|m: int| 0 <= m < nv ==> #[trigger] out@[m].0 == vec_results@[m].0,
            forall|m: int| nv <= m < out@.len() ==> exists|jj: int|
                0 <= jj < j && #[trigger] out@[m].0 == kn@[jj].0 && !contains_id(
                    vec_results@,
                    kn@[jj].0@,
                ),
            forall|m: int| 0 <= m < out@.len() ==> #[trigger] out@[m].1 as int == fused_value(
                vec_results@,
                kw_results@,
                out@[m].0@,
            ),
            forall|m: int| 0 <= m < out@.len() ==> 0 <= #[trigger] out@[m].1 <= SCORE_SCALE,
            forall|jj: int| 0 <= jj < j ==> contains_id(out@, #[trigger] kn@[jj].0@),
            distinct_ids(out@),
        decreases nk - j,
    {
        let id = kn[j].0.clone();
        match find_score(&vn, &id) {
            Some(_) => {
                proof {
                    let m = choose|m: int|
                        0 <= m < vn@.len() && #[trigger] vn@[m].0@ == id@;
                    assert(out@[m].0 == vec_results@[m].0 && vec_results@[m].0 == vn@[m].0);
                    assert(out@[m].0@ == kn@[j as int].0@);
                    assert(contains_id(out@, kn@[j as int].0@));
                }
            },
            None => {
                let ks = kn[j].1;
                proof {
                    assert(!contains_id(vn@, id@));
                    assert forall|m: int| 0 <= m < vec_results@.len() implies #[trigger] vec_results@[m].0@
                        != id@ by {
                        assert(vn@[m].0 == vec_results@[m].0);
                    }
                    assert(!contains_id(vec_results@, id@));
                    assert(norm_lookup(vec_results@, id@) == 0);
                    lemma_index_of_id_unique(kw_results@, j as int);
                    assert(norm_lookup(kw_results@, id@) == ks as int);
                    lemma_mul_inequality(ks as int, SCORE_SCALE as int, KEYWORD_WEIGHT as int);
                    lemma_mul_inequality(0, ks as int, KEYWORD_WEIGHT as int);
                    lemma_mul_is_commutative(ks as int, KEYWORD_WEIGHT as int);
                    lemma_mul_is_commutative(SCORE_SCALE as int, KEYWORD_WEIGHT as int);
                    let num = (VECTOR_WEIGHT as int) * norm_lookup(vec_results@, id@) + (
                    KEYWORD_WEIGHT as int) * norm_lookup(kw_results@, id@);
                    lemma_div_is_ordered(0, num, SCORE_SCALE as int);
                    lemma_div_is_ordered(
                        num,
                        (SCORE_SCALE as int) * (SCORE_SCALE as int),
                        SCORE_SCALE as int,
                    );
                    lemma_div_multiples_vanish(SCORE_SCALE as int, SCORE_SCALE as int);
                }
                let fused: i64 = KEYWORD_WEIGHT * ks / SCORE_SCALE;
                let ghost before = out@;
                out.push((id, fused));
                proof {
                    assert(out@[out@.len() - 1].0 == kn@[j as int].0);
                    assert(contains_id(out@, kn@[j as int].0@));
                    assert forall|p: int, q: int| 0 <= p < q < out@.len() implies #[trigger] out@[p].0@
                        != #[trigger] out@[q].0@ by {
                        if q < out@.len() - 1 {
                            assert(out@[p] == before[p] && out@[q] == before[q]);
                        } else {
                            assert(out@[q].0 == kn@[j as int].0);
                            assert(out@[p] == before[p]);
                            if p < nv {
                                assert(out@[p].0 == vec_results@[p].0);
                                if out@[p].0@ == out@[q].0@ {
                                    assert(contains_id(vec_results@, id@));
                                }
                            } else {
                                let jj = choose|jj: int|
                                    0 <= jj < j && #[trigger] before[p].0 == kn@[jj].0
                                        && !contains_id(vec_results@, kn@[jj].0@);
                                assert(kn@[jj].0@ != kn@[j as int].0@);
                            }
                        }
                    }
                    assert(distinct_ids(out@));
                    assert forall|m: int| nv <= m < out@.len() implies exists|jj: int|
                        0 <= jj < j + 1 && #[trigger] out@[m].0 == kn@[jj].0 && !contains_id(
                            vec_results@,
                            kn@[jj].0@,
                        ) by {
                        if m < out@.len() - 1 {
                            assert(out@[m] == before[m]);
                            let jj = choose|jj: int|
                                0 <= jj < j && #[trigger] before[m].0 == kn@[jj].0 && !contains_id(
                                    vec_results@,
                                    kn@[jj].0@,
                                );
                            assert(0 <= jj < j + 1 && out@[m].0 == kn@[jj].0 && !contains_id(
                                vec_results@,
                                kn@[jj].0@,
                            ));
                        } else {
                            assert(out@[m].0 == kn@[j as int].0 && !contains_id(
                                vec_results@,
                                kn@[j as int].0@,
                            ));
                        }
                    }
                    assert forall|jj: int| 0 <= jj < j + 1 implies contains_id(
                        out@,
                        #[trigger] kn@[jj].0@,
                    ) by {
                        if jj < j {
                            let m = choose|m: int|
                                0 <= m < before.len() && #[trigger] before[m].0@ == kn@[jj].0@;
                            assert(out@[m].0@ == kn@[jj].0@);
                        } else {
                            assert(out@[out@.len() - 1].0@ == kn@[j as int].0@);
                        }
                    }
                }
            },
        }
        j = j + 1;
    }

    let ghost unsorted = out@;
    proof {
        // every id of either input occurs in `out`
        assert forall|id: Seq<char>| contains_id(vec_results@, id) || contains_id(
            kw_results@,
            id,
        ) implies #[trigger] contains_id(unsorted, id) by {
            if contains_id(vec_results@, id) {
                let m = choose|m: int|
                    0 <= m < vec_results@.len() && #[trigger] vec_results@[m].0@ == id;
                assert(out@[m].0@ == id);
                assert(unsorted[m].0@ == id);
            } else {
                let m = choose|m: int|
                    0 <= m < kw_results@.len() && #[trigger] kw_results@[m].0@ == id;
                assert(kn@[m].0@ == id);
                assert(contains_id(out@, kn@[m].0@));
                let w = choose|w: int| 0 <= w < out@.len() && #[trigger] out@[w].0@ == kn@[m].0@;
                assert(unsorted[w].0@ == id);
            }
        }
        // and conversely
        assert forall|id: Seq<char>| #[trigger] contains_id(unsorted, id) implies contains_id(
            vec_results@,
            id,
        ) || contains_id(kw_results@, id) by {
            let m = choose|m: int| 0 <= m < unsorted.len() && #[trigger] unsorted[m].0@ == id;
            assert(out@[m].0@ == id);
            if m < nv {
                assert(vec_results@[m].0@ == id);
            } else {
                let jj = choose|jj: int|
                    0 <= jj < nk && #[trigger] out@[m].0 == kn@[jj].0 && !contains_id(
                        vec_results@,
                        kn@[jj].0@,
                    );
                assert(kw_results@[jj].0@ == id);
            }
        }
    }

    sort_pairs_by_score_desc(&mut out);
    proof {
        lemma_permutation_distinct_ids(unsorted, out@);
        lemma_permutation_contains_id(unsorted, out@);
        assert forall|id: Seq<char>| #[trigger] contains_id(out@, id) <==> (contains_id(
            vec_results@,
            id,
        ) || contains_id(kw_results@, id)) by {
            assert(contains_id(unsorted, id) <==> contains_id(out@, id));
            assert(contains_id(unsorted, id) <==> (contains_id(vec_results@, id) || contains_id(
                kw_results@,
                id,
            )));
        }
        out@.to_multiset_ensures();
        unsorted.to_multiset_ensures();
        assert forall|m: int| 0 <= m < out@.len() implies #[trigger] out@[m].1 as int
            == fused_value(vec_results@, kw_results@, out@[m].0@) && 0 <= out@[m].1
            <= SCORE_SCALE by {
            assert(out@.contains(out@[m]));
            assert(out@.to_multiset().count(out@[m]) > 0);
            assert(unsorted.to_multiset().count(out@[m]) > 0);
            assert(unsorted.contains(out@[m]));
            let k = choose|k: int| 0 <= k < unsorted.len() && unsorted[k] == out@[m];
            assert(unsorted[k].1 as int == fused_value(vec_results@, kw_results@, unsorted[k].0@));
        }
    }
    out
}

/// Sorts `(id, score)` pairs by score, highest first, keeping exactly the same
/// collection of pairs.
#[verifier::rlimit(100)]
pub fn sort_pairs_by_score_desc(v: &mut Vec<(String, i64)>)
    ensures
        final(v)@.len() == old(v)@.len(),
        final(v)@.to_multiset() == old(v)@.to_multiset(),
        sorted_desc(final(v)@),
{
    broadcast use group_to_multiset_ensures;
    broadcast use group_multiset_axioms;

    let n = v.len();
    if n <= 1 {
        return ;
    }
    let ghost orig = v@;
    let mut i: usize = 1;
    while i < n
        invariant
            1 <= i <= n,
            v@.len() == n,
            v@.to_multiset() == orig.to_multiset(),
            sorted_desc(v@.take(i as int)),
        decreases n - i,
    {
        let ghost pre = v@;
        let x = v.remove(i);
        proof {
            vstd::seq_lib::to_multiset_remove(pre, i as int);
        }
        let mut j: usize = i;
        while j > 0 && v[j - 1].1 < x.1
            invariant
                0 <= j <= i,
                i < n,
                v@.len() == n - 1,
                v@ == pre.remove(i as int),
                forall|m: int| j <= m < i ==> #[trigger] v@[m].1 < x.1,
            decreases j,
    {
            j = j - 1;
        }
        let ghost mid = v@;
        v.insert(j, x);
        proof {
            assert(v@ == mid.insert(j as int, x));
            vstd::seq_lib::to_multiset_insert(mid, j as int, x);
            assert(v@.to_multiset() == mid.to_multiset().insert(x));
            pre.to_multiset_ensures();
            assert(pre.contains(pre[i as int]));
            assert(pre.to_multiset().count(pre[i as int]) > 0);
            assert(pre.to_multiset().contains(pre[i as int]));
            assert(v@.to_multiset() =~= pre.to_multiset());
            // the prefix of length i + 1 is sorted again
            assert forall|p: int, q: int| 0 <= p < q < i + 1 implies #[trigger] v@[p].1
                >= #[trigger] v@[q].1 by {
                assert(forall|m: int| 0 <= m < j ==> v@[m] == #[trigger] mid[m]);
                assert(v@[j as int] == x);
                assert(forall|m: int| j < m <= i ==> v@[m] == #[trigger] mid[m - 1]);
                assert(forall|m: int| 0 <= m < i ==> mid[m] == #[trigger] pre[m]);
                assert(sorted_desc(pre.take(i as int)));
                assert(forall|p0: int, q0: int|
                    0 <= p0 < q0 < i ==> #[trigger] pre[p0].1 >= #[trigger] pre[q0].1);
                if p == j as int {
                    assert(q > j);
                    assert(v@[q].1 == pre[q - 1].1);
                    assert(j <= q - 1 < i);
                    assert(pre[q - 1].1 < x.1);
                } else if q == j as int {
                    assert(p < j);
                    assert(v@[p].1 == pre[p].1);
                    assert(j > 0 ==> pre[j - 1].1 >= x.1);
                    assert(pre[p].1 >= pre[j - 1].1 || p == j - 1);
                } else if p < j && q > j {
                    assert(v@[p].1 == pre[p].1 && v@[q].1 == pre[q - 1].1);
                } else if p < j && q < j {
                    assert(v@[p].1 == pre[p].1 && v@[q].1 == pre[q].1);
                } else {
                    assert(v@[p].1 == pre[p - 1].1 && v@[q].1 == pre[q - 1].1);
                }
            }
            assert(sorted_desc(v@.take(i as int + 1)));
        }
        i = i + 1;
    }
    assert(v@.take(n as int) =~= v@);
}

} // verus!
