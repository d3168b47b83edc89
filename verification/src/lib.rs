//! A local knowledge-base engine: documents are split into chunks, stored in a
//! vector index, an inverted keyword index and a content store, and retrieved
//! by hybrid search (dense similarity fused with keyword scores).
//!
//! Scores are fixed-point integers counted in millionths; the surrounding
//! application converts model outputs into that representation at the edge,
//! and runs the embedding and reranking models between the library's prepare
//! and write steps.

pub mod bm25;
pub mod chunking;
pub mod config;
pub mod content;
pub mod db;
pub mod job;
pub mod outside;
pub mod pipeline;
pub mod score;
pub mod search;
pub mod textutil;
pub mod types;
pub mod utils;

use crate::score::{all_valid_raw, distinct_ids, score_seq, valid_raw_score};
use crate::types::{ChunkMeta, Document, DocumentMeta, DocumentRecord, IngestResponse, SearchResult, Source};
use vstd::prelude::*;
use vstd::string::StringExecFns;

verus! {

/// How many content rows belong to the source.
pub open spec fn count_content_docs(docs: Seq<content::DocumentRow>, sid: Seq<char>) -> int
    decreases docs.len(),
{
    if docs.len() == 0 {
        0
    } else {
        count_content_docs(docs.drop_last(), sid) + if docs.last().source_id@ == sid {
            1int
        } else {
            0
        }
    }
}

/// Filtering away one source's rows shrinks the store by exactly that
/// source's document count.
proof fn lemma_filter_count(docs: Seq<content::DocumentRow>, sid: Seq<char>)
    ensures
        docs.filter(content::keeps_other_sources(sid)).len() == docs.len() - count_content_docs(
            docs,
            sid,
        ),
    decreases docs.len(),
{
    reveal(Seq::filter);
    if docs.len() > 0 {
        lemma_filter_count(docs.drop_last(), sid);
    }
}

/// A result is hydrated: its metadata fields come from a stored chunk's
/// record, and its text is a stored chunk body for the same id.
pub open spec fn hydrated(kb: Eywa, x: SearchResult) -> bool {
    &&& exists|j: int|
        0 <= j < kb.db.chunks@.len() && ({
            let rec = (#[trigger] kb.db.chunks@[j]).record;
            rec.id == x.id && rec.source_id == x.source_id && rec.title == x.title
                && rec.file_path == x.file_path && rec.line_start == x.line_start
        })
    &&& exists|i: int|
        0 <= i < kb.content.chunks@.len() && (#[trigger] kb.content.chunks@[i]).id@ == x.id@
            && kb.content.chunks@[i].content@ == x.content@
}

/// The vector search behind a similar-document list: the document vector's
/// nearest chunks at depth `2 * (limit + 5)`; every hit from another
/// document whose body is stored keeps a result under its id unless the
/// list is already full.
pub open spec fn similar_pipeline_ok(
    kb: Eywa,
    doc_id: Seq<char>,
    qv: Seq<i64>,
    limit: int,
    vm: Seq<ChunkMeta>,
    r: Seq<SearchResult>,
) -> bool {
    &&& db::VectorDB::search_post(kb.db, qv, Option::None, 2 * (limit + 5), vm)
    &&& forall|w: int|
        0 <= w < vm.len() && (#[trigger] vm[w]).document_id@ != doc_id
            && kb.content.has_chunk(vm[w].id@) ==> (exists|m: int|
            0 <= m < r.len() && (#[trigger] r[m]).id@ == vm[w].id@) || r.len() == limit
}

/// The vector hits as fusion pairs.
pub open spec fn meta_pairs(vm: Seq<ChunkMeta>) -> Seq<(String, i64)> {
    Seq::new(vm.len(), |i: int| (vm[i].id, vm[i].score))
}

/// The keyword hits as fusion pairs.
pub open spec fn hit_pairs(kh: Seq<bm25::BM25Result>) -> Seq<(String, i64)> {
    Seq::new(kh.len(), |i: int| (kh[i].chunk_id, kh[i].score))
}

/// The hybrid pipeline behind a search result list: both store searches at
/// fixed depth 50, a fused candidate list carrying exactly their ids with
/// the convex-combination values, and service of every candidate in the
/// doubled window that meets the threshold and hydrates — it keeps a result
/// under its id unless the list is already full.
pub open spec fn search_pipeline_ok(
    kb: Eywa,
    query: Seq<char>,
    qv: Seq<i64>,
    limit: int,
    vm: Seq<ChunkMeta>,
    kh: Seq<bm25::BM25Result>,
    fused: Seq<(String, i64)>,
    r: Seq<SearchResult>,
) -> bool {
    &&& db::VectorDB::search_post(kb.db, qv, Option::None, 50, vm)
    &&& bm25::BM25Index::search_post(kb.bm25_index, bm25::tokens_of(query), 50, kh)
    &&& score::distinct_ids(fused)
    &&& score::sorted_desc(fused)
    &&& forall|id: Seq<char>| #[trigger]
        score::contains_id(fused, id) <==> (score::contains_id(meta_pairs(vm), id)
            || score::contains_id(hit_pairs(kh), id))
    &&& forall|f: int|
        0 <= f < fused.len() ==> (#[trigger] fused[f]).1 as int == score::fused_value(
            meta_pairs(vm),
            hit_pairs(kh),
            fused[f].0@,
        )
    &&& forall|f: int|
        0 <= f < fused.len() && f < 2 * limit && (#[trigger] fused[f]).1 >= kb.search.min_score
            && (exists|w: int| 0 <= w < vm.len() && (#[trigger] vm[w]).id@ == fused[f].0@)
            && kb.content.has_chunk(fused[f].0@) ==> (exists|m: int|
            0 <= m < r.len() && (#[trigger] r[m]).id@ == fused[f].0@) || r.len() == limit
}

/// The knowledge base: the three stores, the result shaping rules, and the
/// ingest pipeline.
pub struct Eywa {
    pub db: db::VectorDB,
    pub bm25_index: bm25::BM25Index,
    pub content: content::ContentStore,
    pub search: search::SearchEngine,
    pub pipeline: pipeline::IngestPipeline,
}

impl Eywa {
    /// The stores are well-formed and the result shaping is in range.
    pub open spec fn wf(self) -> bool {
        &&& self.db.wf()
        &&& self.bm25_index.wf()
        &&& 0 <= self.search.keyword_boost <= score::SCORE_SCALE
    }

    /// A fresh knowledge base for embeddings of the given dimension.
    pub fn new(dim: usize) -> (r: Self)
        requires
            1 <= dim <= db::MAX_DIM,
        ensures
            r.wf(),
            r.db.dim == dim,
            r.db.docs@.len() == 0,
            r.db.chunks@.len() == 0,
            r.bm25_index.entries@.len() == 0,
            r.content.docs@.len() == 0,
    {
        Eywa {
            db: db::VectorDB::new(dim),
            bm25_index: bm25::BM25Index::new(),
            content: content::ContentStore::new(),
            search: search::SearchEngine::new(),
            pipeline: pipeline::IngestPipeline::new(),
        }
    }

    /// Writes an embedded batch through the pipeline: content store first,
    /// then vector index, then keyword index, with global deduplication by
    /// content hash.
    pub fn ingest_embedded(&mut self, batch: pipeline::EmbeddedBatch) -> (r: IngestResponse)
        requires
            old(self).wf(),
            batch.embeddings@.len() == batch.chunks@.len(),
            forall|k: int|
                0 <= k < batch.embeddings@.len() ==> (#[trigger] batch.embeddings@[k])@.len()
                    == old(self).db.dim && db::vec_in_range(batch.embeddings@[k]@),
            batch.chunks@.len() < 0xFFFF_FFFF,
            batch.documents@.len() < 0xFFFF_FFFF,
            forall|k: int|
                0 <= k < batch.chunks@.len() ==> !old(self).db.has_chunk_id(
                    (#[trigger] batch.chunks@[k]).id@,
                ),
            forall|i: int, j: int|
                0 <= i < j < batch.chunks@.len() ==> (#[trigger] batch.chunks@[i]).id@
                    != (#[trigger] batch.chunks@[j]).id@,
        ensures
            final(self).wf(),
            final(self).db.dim == old(self).db.dim,
            final(self).search == old(self).search,
            r.chunks_skipped as int == pipeline::dup_count(old(self).db, batch.chunks@),
            r.chunks_created as int == batch.chunks@.len() - pipeline::dup_count(
                old(self).db,
                batch.chunks@,
            ),
            r.documents_created as int == batch.documents@.len(),
            forall|k: int|
                0 <= k < batch.chunks@.len() ==> final(self).db.has_hash(
                    (#[trigger] batch.chunks@[k]).content_hash@,
                ),
    {
        let p = pipeline::IngestPipeline::new();
        p.write_embedded_batch(&mut self.db, &mut self.bm25_index, &mut self.content, batch)
    }

    /// Hybrid search: the query vector's nearest chunks and the query text's
    /// keyword hits are fetched at fixed depth 50, min-max normalized and
    /// fused (`0.8` dense, `0.2` keyword), the top `2 * limit` fused
    /// candidates are hydrated from the content store (keyword-only ids,
    /// with no vector metadata, are dropped), results below the score
    /// threshold are cut before the keyword boost, and the boosted results
    /// come back best first, at most `limit` of them.
    #[verifier::loop_isolation(false)]
    #[verifier::rlimit(100)]
    #[verifier::spinoff_prover]
    pub fn search(&self, query: &str, query_vec: &Vec<i64>, limit: usize) -> (r: Vec<SearchResult>)
        requires
            self.wf(),
            query_vec@.len() == self.db.dim,
            db::vec_in_range(query_vec@),
            self.bm25_index.entries@.len() <= 1_000_000,
            limit <= 1_000_000,
        ensures
            r@.len() <= limit,
            search::results_sorted_desc(r@),
            forall|m: int| 0 <= m < r@.len() ==> (#[trigger] r@[m]).score >= self.search.min_score,
            forall|m: int| 0 <= m < r@.len() ==> self.db.has_chunk_id((#[trigger] r@[m]).id@),
            forall|m: int|
                0 <= m < r@.len() ==> exists|x: SearchResult|
                    #[trigger] r@[m] == search::boosted_result(
                        x,
                        bm25::tokens_of(query@),
                        self.search.keyword_boost as int,
                    ) && hydrated(*self, x) && x.score >= self.search.min_score,
            exists|vm: Seq<ChunkMeta>, kh: Seq<bm25::BM25Result>, fused_s: Seq<(String, i64)>|
                #[trigger] search_pipeline_ok(
                    *self,
                    query@,
                    query_vec@,
                    limit as int,
                    vm,
                    kh,
                    fused_s,
                    r@,
                ),
    {
        let vec_metas = self.db.search_filtered(query_vec, 50, Option::None);
        let kw_hits = self.bm25_index.search(query, 50);

        // raw (id, score) pairs for fusion
        let mut vec_pairs: Vec<(String, i64)> = Vec::new();
        let nv = vec_metas.len();
        let mut i: usize = 0;
        while i < nv
            invariant
                0 <= i <= nv,
                vec_pairs@.len() == i,
                forall|m: int|
                    0 <= m < i ==> (#[trigger] vec_pairs@[m]).0 == vec_metas@[m].id
                        && vec_pairs@[m].1 == vec_metas@[m].score,
            decreases nv - i,
        {
            vec_pairs.push((vec_metas[i].id.clone(), vec_metas[i].score));
            i = i + 1;
        }
        let mut kw_pairs: Vec<(String, i64)> = Vec::new();
        let nk = kw_hits.len();
        let mut k: usize = 0;
        while k < nk
            invariant
                0 <= k <= nk,
                kw_pairs@.len() == k,
                forall|m: int|
                    0 <= m < k ==> (#[trigger] kw_pairs@[m]).0 == kw_hits@[m].chunk_id
                        && kw_pairs@[m].1 == kw_hits@[m].score,
            decreases nk - k,
        {
            kw_pairs.push((kw_hits[k].chunk_id.clone(), kw_hits[k].score));
            k = k + 1;
        }
        proof {
            assert(vec_pairs@ =~= meta_pairs(vec_metas@));
            assert(kw_pairs@ =~= hit_pairs(kw_hits@));
            assert(distinct_ids(vec_pairs@));
            assert(distinct_ids(kw_pairs@));
            assert forall|m: int| 0 <= m < score_seq(vec_pairs@).len() implies valid_raw_score(
                #[trigger] score_seq(vec_pairs@)[m] as int,
            ) by {
                assert(score_seq(vec_pairs@)[m] == (#[trigger] vec_pairs@[m]).1);
            }
            assert(all_valid_raw(score_seq(vec_pairs@)));
            assert forall|m: int| 0 <= m < score_seq(kw_pairs@).len() implies valid_raw_score(
                #[trigger] score_seq(kw_pairs@)[m] as int,
            ) by {
                assert(score_seq(kw_pairs@)[m] == (#[trigger] kw_pairs@[m]).1);
            }
            assert(all_valid_raw(score_seq(kw_pairs@)));
        }
        let fused = score::convex_fusion(&vec_pairs, &kw_pairs);

        // hydrate the top candidates from the content store
        let take_n = if fused.len() > 2 * limit {
            2 * limit
        } else {
            fused.len()
        };
        let mut results: Vec<SearchResult> = Vec::new();
        let mut f: usize = 0;
        while f < take_n
            invariant
                0 <= f <= take_n <= fused@.len(),
                take_n <= 2 * limit,
                forall|m: int| 0 <= m < results@.len() ==> hydrated(
                    *self,
                    #[trigger] results@[m],
                ) && self.db.has_chunk_id(results@[m].id@) && valid_raw_score(
                    results@[m].score as int,
                ),
                forall|ff: int|
                    0 <= ff < f && (exists|w: int|
                        0 <= w < vec_metas@.len() && (#[trigger] vec_metas@[w]).id@
                            == fused@[ff].0@) && self.content.has_chunk(
                        (#[trigger] fused@[ff]).0@,
                    ) ==> exists|m: int|
                        0 <= m < results@.len() && (#[trigger] results@[m]).id@ == fused@[ff].0@
                            && results@[m].score == fused@[ff].1,
            decreases take_n - f,
        {
            // results are kept only when the vector index knows the chunk
            let nvm = vec_metas.len();
            let mut w: usize = 0;
            let mut found = false;
            while w < nvm && !found
                invariant
                    0 <= w <= nvm,
                    f < take_n,
                    found ==> w < nvm && vec_metas@[w as int].id@ == fused@[f as int].0@,
                    !found ==> forall|ww: int|
                        0 <= ww < w ==> (#[trigger] vec_metas@[ww]).id@ != fused@[f as int].0@,
                decreases nvm - w + (if found { 0int } else { 1 }),
            {
                if crate::textutil::str_eq(vec_metas[w].id.as_str(), fused[f].0.as_str()) {
                    found = true;
                } else {
                    w = w + 1;
                }
            }
            let ghost pre_results = results@;
            if found {
                match self.content.get_chunk(fused[f].0.as_str()) {
                    Option::Some(text) => {
                        let meta = &vec_metas[w];
                        proof {
                            let j = choose|j: int|
                                0 <= j < self.db.chunks@.len() && db::chunk_matches_src(
                                    #[trigger] self.db.chunks@[j],
                                    Option::None,
                                ) && vec_metas@[w as int] == db::VectorDB::meta_of(
                                    self.db.chunks@[j],
                                    query_vec@,
                                );
                            assert(self.db.has_chunk_id(vec_metas@[w as int].id@));
                        }
                        results.push(
                            SearchResult {
                                id: meta.id.clone(),
                                source_id: meta.source_id.clone(),
                                title: db::clone_opt_exact(&meta.title),
                                content: text,
                                file_path: db::clone_opt_exact(&meta.file_path),
                                line_start: meta.line_start,
                                score: fused[f].1,
                            },
                        );
                        proof {
                            assert(results@[results@.len() - 1].id@ == fused@[f as int].0@);
                            assert(results@[results@.len() - 1].score == fused@[f as int].1);
                            assert(hydrated(*self, results@[results@.len() - 1]));
                            assert(forall|m: int|
                                0 <= m < pre_results.len() ==> #[trigger] results@[m]
                                    == pre_results[m]);
                            assert forall|ff: int|
                                0 <= ff < f && (exists|w: int|
                                    0 <= w < vec_metas@.len() && (#[trigger] vec_metas@[w]).id@
                                        == fused@[ff].0@) && self.content.has_chunk(
                                    (#[trigger] fused@[ff]).0@,
                                ) implies exists|m: int|
                                0 <= m < results@.len() && (#[trigger] results@[m]).id@
                                    == fused@[ff].0@ && results@[m].score == fused@[ff].1 by {
                                let m = choose|m: int|
                                    0 <= m < pre_results.len()
                                        && (#[trigger] pre_results[m]).id@ == fused@[ff].0@
                                        && pre_results[m].score == fused@[ff].1;
                                assert(results@[m] == pre_results[m]);
                            }
                        }
                    },
                    Option::None => {
                        proof {
                            assert(!self.content.has_chunk(fused@[f as int].0@));
                        }
                    },
                }
            } else {
                proof {
                    assert(forall|ww: int|
                        0 <= ww < vec_metas@.len() ==> (#[trigger] vec_metas@[ww]).id@
                            != fused@[f as int].0@);
                }
            }
            f = f + 1;
        }

        // threshold, keyword boost, final cut
        let filtered = self.search.filter_results(results);
        proof {
            assert forall|m: int| 0 <= m < filtered@.len() implies hydrated(
                *self,
                #[trigger] filtered@[m],
            ) && self.db.has_chunk_id(filtered@[m].id@) && valid_raw_score(
                filtered@[m].score as int,
            ) && filtered@[m].score >= self.search.min_score by {
                lemma_result_filter_facts(
                    results@,
                    filtered@,
                    self.search.min_score,
                    m,
                    |x: SearchResult| hydrated(*self, x) && self.db.has_chunk_id(x.id@)
                        && valid_raw_score(x.score as int),
                );
            }
        }
        let mut reranked = self.search.rerank_with_keywords(filtered, query);
        proof {
            broadcast use vstd::seq_lib::group_to_multiset_ensures;
            broadcast use vstd::multiset::group_multiset_axioms;

            let qtoks = bm25::tokens_of(query@);
            let boost = self.search.keyword_boost as int;
            let boosted = filtered@.map_values(
                |x: SearchResult| search::boosted_result(x, qtoks, boost),
            );
            assert forall|m: int| 0 <= m < reranked@.len() implies self.db.has_chunk_id(
                (#[trigger] reranked@[m]).id@,
            ) && reranked@[m].score >= self.search.min_score && (exists|x: SearchResult|
                #[trigger] reranked@[m] == search::boosted_result(x, qtoks, boost) && hydrated(
                    *self,
                    x,
                ) && x.score >= self.search.min_score) by {
                assert(reranked@.contains(reranked@[m]));
                assert(reranked@.to_multiset().count(reranked@[m]) > 0);
                assert(boosted.to_multiset().count(reranked@[m]) > 0);
                assert(boosted.contains(reranked@[m]));
                let wsrc = choose|wsrc: int|
                    0 <= wsrc < boosted.len() && boosted[wsrc] == reranked@[m];
                assert(boosted[wsrc] == search::boosted_result(filtered@[wsrc], qtoks, boost));
                search::lemma_boost_monotone(filtered@[wsrc], qtoks, boost);
                assert(reranked@[m] == search::boosted_result(filtered@[wsrc], qtoks, boost)
                    && hydrated(*self, filtered@[wsrc]) && filtered@[wsrc].score
                    >= self.search.min_score);
            }
            // every hydratable, qualifying candidate keeps a result
            assert forall|ff: int|
                0 <= ff < fused@.len() && ff < 2 * (limit as int)
                    && (#[trigger] fused@[ff]).1 >= self.search.min_score && (exists|w: int|
                    0 <= w < vec_metas@.len() && (#[trigger] vec_metas@[w]).id@ == fused@[ff].0@)
                    && self.content.has_chunk(fused@[ff].0@) implies exists|m: int|
                0 <= m < reranked@.len() && (#[trigger] reranked@[m]).id@
                    == fused@[ff].0@ by {
                let m0 = choose|m0: int|
                    0 <= m0 < results@.len() && (#[trigger] results@[m0]).id@ == fused@[ff].0@
                        && results@[m0].score == fused@[ff].1;
                results@.lemma_filter_contains(
                    |x: SearchResult| x.score >= self.search.min_score,
                    m0,
                );
                assert(filtered@.contains(results@[m0]));
                let m1 = choose|m1: int|
                    0 <= m1 < filtered@.len() && #[trigger] filtered@[m1] == results@[m0];
                assert(boosted[m1] == search::boosted_result(filtered@[m1], qtoks, boost));
                search::lemma_boost_monotone(filtered@[m1], qtoks, boost);
                assert(boosted[m1].id@ == fused@[ff].0@);
                assert(boosted.contains(boosted[m1]));
                assert(boosted.to_multiset().count(boosted[m1]) > 0);
                assert(reranked@.to_multiset().count(boosted[m1]) > 0);
                assert(reranked@.contains(boosted[m1]));
                let m2 = choose|m2: int|
                    0 <= m2 < reranked@.len() && #[trigger] reranked@[m2] == boosted[m1];
                assert(reranked@[m2].id@ == fused@[ff].0@);
            }
        }
        let ghost pre_cut = reranked@;
        reranked.truncate(limit);
        proof {
            if limit as int <= pre_cut.len() {
                assert(reranked@ == pre_cut.subrange(0, limit as int));
            }
            assert(search_pipeline_ok(
                *self,
                query@,
                query_vec@,
                limit as int,
                vec_metas@,
                kw_hits@,
                fused@,
                reranked@,
            )) by {
                assert forall|ff: int|
                    0 <= ff < fused@.len() && ff < 2 * (limit as int)
                        && (#[trigger] fused@[ff]).1 >= self.search.min_score && (exists|w: int|
                        0 <= w < vec_metas@.len() && (#[trigger] vec_metas@[w]).id@
                            == fused@[ff].0@) && self.content.has_chunk(fused@[ff].0@) implies (
                exists|m: int|
                    0 <= m < reranked@.len() && (#[trigger] reranked@[m]).id@ == fused@[ff].0@)
                    || reranked@.len() == limit as int by {
                    if (limit as int) > pre_cut.len() {
                        let m2 = choose|m2: int|
                            0 <= m2 < pre_cut.len() && (#[trigger] pre_cut[m2]).id@
                                == fused@[ff].0@;
                        assert(reranked@[m2].id@ == fused@[ff].0@);
                    }
                }
                assert(forall|id: Seq<char>| #[trigger] score::contains_id(fused@, id) <==> (
                score::contains_id(meta_pairs(vec_metas@), id) || score::contains_id(
                    hit_pairs(kw_hits@),
                    id,
                )));
            }
        }
        reranked
    }

    /// Chunks similar to a document: the document vector's nearest chunks
    /// (fetched at twice `limit + 5`), the document's own chunks dropped,
    /// hydrated from the content store, best first, at most `limit`. The
    /// surrounding application embeds the document's text and hands the
    /// vector in.
    #[verifier::loop_isolation(false)]
    pub fn similar_docs(&self, doc_id: &str, doc_vec: &Vec<i64>, limit: usize) -> (r: Vec<
        SearchResult,
    >)
        requires
            self.wf(),
            doc_vec@.len() == self.db.dim,
            db::vec_in_range(doc_vec@),
            limit <= 1_000_000,
        ensures
            r@.len() <= limit,
            search::results_sorted_desc(r@),
            forall|m: int|
                0 <= m < r@.len() ==> exists|i: int|
                    0 <= i < self.db.chunks@.len() && (#[trigger] self.db.chunks@[i]).record.id@
                        == (#[trigger] r@[m]).id@ && self.db.chunks@[i].record.document_id@
                        != doc_id@,
            forall|m: int|
                0 <= m < r@.len() ==> exists|i: int|
                    0 <= i < self.content.chunks@.len() && (#[trigger] self.content.chunks@[i]).id@
                        == (#[trigger] r@[m]).id@ && self.content.chunks@[i].content@
                        == r@[m].content@,
            exists|vm: Seq<ChunkMeta>| #[trigger] similar_pipeline_ok(
                *self,
                doc_id@,
                doc_vec@,
                limit as int,
                vm,
                r@,
            ),
    {
        let depth = 2 * (limit + 5);
        let metas = self.db.search_filtered(doc_vec, depth, Option::None);
        let nm = metas.len();
        let mut r: Vec<SearchResult> = Vec::new();
        let mut i: usize = 0;
        while i < nm
            invariant
                0 <= i <= nm,
                r@.len() <= limit,
                forall|w: int|
                    0 <= w < i && (#[trigger] metas@[w]).document_id@ != doc_id@
                        && self.content.has_chunk(metas@[w].id@) ==> (exists|m: int|
                        0 <= m < r@.len() && (#[trigger] r@[m]).id@ == metas@[w].id@)
                        || r@.len() == limit,
                forall|m: int, j: int|
                    0 <= m < r@.len() && i <= j < metas@.len() ==> (#[trigger] r@[m]).score
                        >= (#[trigger] metas@[j]).score,
                search::results_sorted_desc(r@),
                forall|m: int|
                    0 <= m < r@.len() ==> exists|jj: int|
                        0 <= jj < self.db.chunks@.len()
                            && (#[trigger] self.db.chunks@[jj]).record.id@
                            == (#[trigger] r@[m]).id@ && self.db.chunks@[jj].record.document_id@
                            != doc_id@,
                forall|m: int|
                    0 <= m < r@.len() ==> exists|jj: int|
                        0 <= jj < self.content.chunks@.len()
                            && (#[trigger] self.content.chunks@[jj]).id@
                            == (#[trigger] r@[m]).id@ && self.content.chunks@[jj].content@
                            == r@[m].content@,
            decreases nm - i,
        {
            if r.len() >= limit {
                proof {
                    assert(r@.len() == limit);
                    assert(similar_pipeline_ok(
                        *self,
                        doc_id@,
                        doc_vec@,
                        limit as int,
                        metas@,
                        r@,
                    ));
                }
                return r;
            }
            let same = crate::textutil::str_eq(metas[i].document_id.as_str(), doc_id);
            if !same {
                match self.content.get_chunk(metas[i].id.as_str()) {
                    Option::Some(text) => {
                        let meta = &metas[i];
                        let ghost pre = r@;
                        proof {
                            let j = choose|j: int|
                                0 <= j < self.db.chunks@.len() && db::chunk_matches_src(
                                    #[trigger] self.db.chunks@[j],
                                    Option::None,
                                ) && metas@[i as int] == db::VectorDB::meta_of(
                                    self.db.chunks@[j],
                                    doc_vec@,
                                );
                            assert(self.db.chunks@[j].record.id@ == metas@[i as int].id@
                                && self.db.chunks@[j].record.document_id@ != doc_id@);
                        }
                        r.push(
                            SearchResult {
                                id: meta.id.clone(),
                                source_id: meta.source_id.clone(),
                                title: db::clone_opt_exact(&meta.title),
                                content: text,
                                file_path: db::clone_opt_exact(&meta.file_path),
                                line_start: meta.line_start,
                                score: meta.score,
                            },
                        );
                        proof {
                            assert(forall|m: int|
                                0 <= m < pre.len() ==> #[trigger] r@[m] == pre[m]);
                            assert(r@[r@.len() - 1].score == metas@[i as int].score);
                            assert(r@[r@.len() - 1].id@ == metas@[i as int].id@);
                            assert forall|w: int|
                                0 <= w < i && (#[trigger] metas@[w]).document_id@ != doc_id@
                                    && self.content.has_chunk(metas@[w].id@) implies (
                            exists|m: int|
                                0 <= m < r@.len() && (#[trigger] r@[m]).id@ == metas@[w].id@)
                                || r@.len() == limit by {
                                if pre.len() != limit {
                                    let m = choose|m: int|
                                        0 <= m < pre.len() && (#[trigger] pre[m]).id@
                                            == metas@[w].id@;
                                    assert(r@[m].id@ == metas@[w].id@);
                                }
                            }
                        }
                    },
                    Option::None => {
                        proof {
                            assert(!self.content.has_chunk(metas@[i as int].id@));
                        }
                    },
                }
            } else {
                proof {
                    assert(metas@[i as int].document_id@ == doc_id@);
                }
            }
            i = i + 1;
        }
        proof {
            assert(similar_pipeline_ok(*self, doc_id@, doc_vec@, limit as int, metas@, r@));
        }
        r
    }

    /// Deletes one document from every store.
    pub fn delete_document(&mut self, doc_id: &str)
        requires
            old(self).wf(),
        ensures
            final(self).wf(),
            final(self).db.docs@ == old(self).db.docs@.filter(
                |d: DocumentRecord| d.id@ != doc_id@,
            ),
            final(self).content.docs@ == old(self).content.docs@.filter(
                |d: content::DocumentRow| d.id@ != doc_id@,
            ),
    {
        self.db.delete_document(doc_id);
        self.content.delete_document(doc_id);
    }

    /// Deletes a whole source from every store: afterwards the vector index
    /// lists no document or chunk of it, the keyword index holds no entry of
    /// it, and the content store has lost exactly the source's documents.
    pub fn delete_source(&mut self, source_id: &str)
        requires
            old(self).wf(),
        ensures
            final(self).wf(),
            !final(self).db.has_source(source_id@),
            !final(self).bm25_index.has_entry_source(source_id@),
            final(self).content.docs@.len() == old(self).content.docs@.len() - count_content_docs(
                old(self).content.docs@,
                source_id@,
            ),
            final(self).content.docs@ == old(self).content.docs@.filter(
                content::keeps_other_sources(source_id@),
            ),
            final(self).content.chunks@ == old(self).content.chunks@.filter(
                (|c: content::ChunkRow| !content::among(
                    content::source_doc_ids(old(self).content.docs@, source_id@),
                    c.document_id@,
                )),
            ),
            final(self).db.docs@ == old(self).db.docs@.filter(
                |d: DocumentRecord| d.source_id@ != source_id@,
            ),
            final(self).db.chunks@ == old(self).db.chunks@.filter(
                |c: db::StoredChunk| c.record.source_id@ != source_id@,
            ),
            final(self).bm25_index.entries@ == old(self).bm25_index.entries@.filter(
                |e: bm25::IndexedChunk| e.source_id@ != source_id@,
            ),
    {
        self.db.delete_source(source_id);
        self.bm25_index.delete_source(source_id);
        self.content.delete_source_by_source_id(source_id);
        proof {
            lemma_filter_count(old(self).content.docs@, source_id@);
        }
    }

    /// Lists all sources with their aggregates, from the vector index.
    pub fn list_sources(&self) -> (r: Vec<Source>)
        requires
            self.db.docs@.len() <= 0x1000_0000,
        ensures
            forall|sid: Seq<char>| #[trigger]
                self.db.has_source(sid) <==> #[trigger] db::VectorDB::rows_have(r@, sid),
            forall|m: int|
                0 <= m < r@.len() ==> db::VectorDB::source_row_ok(self.db.docs@, #[trigger] r@[m]),
    {
        self.db.list_sources()
    }

    /// Lists documents of a source, up to the limit (ten when none is
    /// given): exactly the first matching rows, in store order.
    pub fn list_documents(&self, source_id: &str, limit: Option<usize>) -> (r: Vec<DocumentMeta>)
        ensures
            db::list_documents_post(self.db, source_id@, limit, r@),
    {
        self.db.list_documents(source_id, limit)
    }

    /// A document, with its metadata from the vector index and its text from
    /// the content store; nothing when either store lacks it.
    pub fn get_document(&self, doc_id: &str) -> (r: Option<Document>)
        ensures
            match r {
                Option::Some(d) => {
                    &&& d.id@ == doc_id@
                    &&& exists|i: int|
                        0 <= i < self.db.docs@.len() && ({
                            let rec = #[trigger] self.db.docs@[i];
                            rec.id == d.id && rec.source_id == d.source_id && rec.title == d.title
                                && rec.file_path == d.file_path && rec.created_at == d.created_at
                                && rec.chunk_count == d.chunk_count
                        })
                    &&& exists|i: int|
                        0 <= i < self.content.docs@.len() && (#[trigger] self.content.docs@[i]).id@
                            == doc_id@ && self.content.docs@[i].content@ == d.content@
                },
                Option::None => (forall|i: int|
                    0 <= i < self.db.docs@.len() ==> (#[trigger] self.db.docs@[i]).id@ != doc_id@)
                    || !self.content.has_doc(doc_id@),
            },
    {
        let record = match self.db.get_document(doc_id) {
            Option::Some(rec) => rec,
            Option::None => {
                return Option::None;
            },
        };
        let text = match self.content.get_document(doc_id) {
            Option::Some(c) => c,
            Option::None => {
                return Option::None;
            },
        };
        Option::Some(
            Document {
                id: record.id,
                source_id: record.source_id,
                title: record.title,
                content: text,
                file_path: record.file_path,
                created_at: record.created_at,
                chunk_count: record.chunk_count,
            },
        )
    }

    /// Drops everything from all three stores: vector index first, then
    /// keyword index, then content store.
    pub fn reset_all(&mut self)
        requires
            old(self).wf(),
        ensures
            final(self).wf(),
            final(self).db.docs@.len() == 0,
            final(self).db.chunks@.len() == 0,
            final(self).bm25_index.entries@.len() == 0,
            final(self).content.docs@.len() == 0,
            final(self).content.chunks@.len() == 0,
            final(self).db.dim == old(self).db.dim,
    {
        self.db.reset_all();
        self.bm25_index.reset();
        self.content.reset();
    }
}

/// Facts carried through a result filter: membership in the original list and
/// the threshold.
proof fn lemma_result_filter_facts(
    orig: Seq<SearchResult>,
    filtered: Seq<SearchResult>,
    min_score: i64,
    m: int,
    good: spec_fn(SearchResult) -> bool,
)
    requires
        filtered == orig.filter(|x: SearchResult| x.score >= min_score),
        forall|i: int| 0 <= i < orig.len() ==> good(#[trigger] orig[i]),
        0 <= m < filtered.len(),
    ensures
        good(filtered[m]),
        filtered[m].score >= min_score,
{
    reveal(Seq::filter);
    orig.lemma_filter_pred(|x: SearchResult| x.score >= min_score, m);
    lemma_result_filter_subset(orig, |x: SearchResult| x.score >= min_score, m);
    let j = choose|j: int| 0 <= j < orig.len() && #[trigger] orig[j] == filtered[m];
}

/// Every filtered result is one of the originals.
proof fn lemma_result_filter_subset(
    s: Seq<SearchResult>,
    pred: spec_fn(SearchResult) -> bool,
    m: int,
)
    requires
        0 <= m < s.filter(pred).len(),
    ensures
        exists|j: int| 0 <= j < s.len() && #[trigger] s[j] == s.filter(pred)[m],
    decreases s.len(),
{
    reveal(Seq::filter);
    if s.len() > 0 {
        let f = s.filter(pred);
        let sub = s.drop_last().filter(pred);
        if pred(s.last()) && m == f.len() - 1 {
            assert(s[s.len() - 1] == f[m]);
        } else {
            assert(f[m] == sub[m]);
            lemma_result_filter_subset(s.drop_last(), pred, m);
            let j = choose|j: int|
                0 <= j < s.drop_last().len() && #[trigger] s.drop_last()[j] == sub[m];
            assert(s[j] == f[m]);
        }
    }
}

} // verus!
