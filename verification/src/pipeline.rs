//! The batched ingest pipeline: documents are prepared (chunked, titled,
//! stamped), their chunks deduplicated globally by content hash, and the
//! surviving chunks written to the three stores in order: content store,
//! vector index, keyword index.
//!
//! Embedding is the surrounding application's step: it turns the prepared
//! chunk texts into fixed-point vectors between `prepare_documents` and
//! `write_embedded_batch`, so no store lock is held while the model runs.

use crate::bm25::{BM25Index, ChunkInput};
use crate::chunking::{ChunkerRegistry, DocMetadata};
use crate::content::{ChunkRow, ContentStore, DocumentRow};
use crate::db::{vec_in_range, ChunkRecord, StoreError, VectorDB};
use crate::outside::{md5_hex_of, new_uuid, now_utc_iso};
use crate::types::{DocumentInput, IngestResponse};
use vstd::prelude::*;
use vstd::string::{StrSliceExecFns, StringExecFns};

verus! {

/// Thresholds of the batch accumulator.
pub struct BatchConfig {
    pub max_docs: usize,
    pub max_chunks: usize,
    pub max_memory_mb: usize,
    pub flush_timeout_secs: u64,
}

impl Default for BatchConfig {
    /// The store-wide defaults: 50 documents, 5000 chunks, 100 MB, 5 s.
    fn default() -> (r: Self)
        ensures
            r.max_docs == 50,
            r.max_chunks == 5000,
            r.max_memory_mb == 100,
            r.flush_timeout_secs == 5,
    {
        BatchConfig { max_docs: 50, max_chunks: 5000, max_memory_mb: 100, flush_timeout_secs: 5 }
    }
}

/// One chunk prepared for writing.
pub struct ChunkData {
    pub id: String,
    pub document_id: String,
    pub source_id: String,
    pub title: Option<String>,
    pub content: String,
    pub file_path: Option<String>,
    pub line_start: u32,
    pub line_end: u32,
    pub content_hash: String,
    pub section: Option<String>,
    pub subsection: Option<String>,
    pub hierarchy: Vec<String>,
    pub has_code: bool,
}

/// One document prepared for writing, with its chunks.
pub struct PreparedDoc {
    pub id: String,
    pub content: String,
    pub title: String,
    pub file_path: Option<String>,
    pub created_at: String,
    pub content_length: u32,
    pub chunk_count: u32,
    pub chunks: Vec<ChunkData>,
}

/// A batch with its embeddings, ready for the short write step.
pub struct EmbeddedBatch {
    pub source_id: String,
    pub documents: Vec<PreparedDoc>,
    pub chunks: Vec<ChunkData>,
    pub embeddings: Vec<Vec<i64>>,
}

/// The ingest pipeline.
pub struct IngestPipeline {
    pub config: BatchConfig,
    pub chunker: ChunkerRegistry,
}

/// The batch size the embedder should use: 32 exactly when the device name
/// holds "CPU", 64 otherwise.
pub fn get_embedding_batch_size(device_name: &str) -> (r: usize)
    ensures
        r == 32 <==> crate::search::contains_sub(device_name@, "CPU"@),
        r == 32 || r == 64,
{
    let pat = crate::textutil::to_chars("CPU");
    let v = crate::textutil::to_chars(device_name);
    if crate::search::contains_sub_exec(&v, &pat) {
        32
    } else {
        64
    }
}

/// Whether files with this extension are ingested: markdown, plain text,
/// PDF, common source code, structured data, web and shell files.
pub fn is_supported_extension(ext: &str) -> (r: bool)
    ensures
        r == (ext@ == "md"@ || ext@ == "markdown"@ || ext@ == "txt"@ || ext@ == "pdf"@ || ext@ == "rs"@ || ext@ == "py"@ || ext@ == "js"@ || ext@ == "ts"@ || ext@ == "tsx"@ || ext@ == "jsx"@ || ext@ == "go"@ || ext@ == "java"@ || ext@ == "c"@ || ext@ == "cpp"@ || ext@ == "h"@ || ext@ == "hpp"@ || ext@ == "dart"@ || ext@ == "swift"@ || ext@ == "kt"@ || ext@ == "kts"@ || ext@ == "rb"@ || ext@ == "php"@ || ext@ == "vue"@ || ext@ == "svelte"@ || ext@ == "json"@ || ext@ == "yaml"@ || ext@ == "yml"@ || ext@ == "toml"@ || ext@ == "xml"@ || ext@ == "html"@ || ext@ == "css"@ || ext@ == "scss"@ || ext@ == "sql"@ || ext@ == "sh"@ || ext@ == "bash"@ || ext@ == "zsh"@ || ext@ == "fish"@),
{
    crate::textutil::str_eq(ext, "md") || crate::textutil::str_eq(ext, "markdown") || crate::textutil::str_eq(ext, "txt") || crate::textutil::str_eq(ext, "pdf") || crate::textutil::str_eq(ext, "rs") || crate::textutil::str_eq(ext, "py") || crate::textutil::str_eq(ext, "js") || crate::textutil::str_eq(ext, "ts") || crate::textutil::str_eq(ext, "tsx") || crate::textutil::str_eq(ext, "jsx") || crate::textutil::str_eq(ext, "go") || crate::textutil::str_eq(ext, "java") || crate::textutil::str_eq(ext, "c") || crate::textutil::str_eq(ext, "cpp") || crate::textutil::str_eq(ext, "h") || crate::textutil::str_eq(ext, "hpp") || crate::textutil::str_eq(ext, "dart") || crate::textutil::str_eq(ext, "swift") || crate::textutil::str_eq(ext, "kt") || crate::textutil::str_eq(ext, "kts") || crate::textutil::str_eq(ext, "rb") || crate::textutil::str_eq(ext, "php") || crate::textutil::str_eq(ext, "vue") || crate::textutil::str_eq(ext, "svelte") || crate::textutil::str_eq(ext, "json") || crate::textutil::str_eq(ext, "yaml") || crate::textutil::str_eq(ext, "yml") || crate::textutil::str_eq(ext, "toml") || crate::textutil::str_eq(ext, "xml") || crate::textutil::str_eq(ext, "html") || crate::textutil::str_eq(ext, "css") || crate::textutil::str_eq(ext, "scss") || crate::textutil::str_eq(ext, "sql") || crate::textutil::str_eq(ext, "sh") || crate::textutil::str_eq(ext, "bash") || crate::textutil::str_eq(ext, "zsh") || crate::textutil::str_eq(ext, "fish")
}

/// Survivor `j` of the batch sits in the selected records with its paired
/// embedding.
pub open spec fn survivor_selected(
    recs: Seq<ChunkRecord>,
    vecs: Seq<Vec<i64>>,
    all: Seq<ChunkData>,
    embs: Seq<Vec<i64>>,
    j: int,
) -> bool {
    exists|m: int|
        0 <= m < recs.len() && (#[trigger] recs[m]).id@ == all[j].id@ && recs[m].content_hash@
            == all[j].content_hash@ && vecs[m] == embs[j]
}

/// The batch size the cross-encoder reranker should use: 8 exactly when the
/// device name holds "CPU", 16 otherwise.
pub fn get_rerank_batch_size(device_name: &str) -> (r: usize)
    ensures
        r == 8 <==> crate::search::contains_sub(device_name@, "CPU"@),
        r == 8 || r == 16,
{
    let pat = crate::textutil::to_chars("CPU");
    let v = crate::textutil::to_chars(device_name);
    if crate::search::contains_sub_exec(&v, &pat) {
        8
    } else {
        16
    }
}

/// Chunk `k` of the batch is a duplicate: its hash is already stored, or an
/// earlier chunk of the same batch carries it.
pub open spec fn is_dup(db0: VectorDB, chunks: Seq<ChunkData>, k: int) -> bool {
    db0.has_hash(chunks[k].content_hash@) || exists|j: int|
        0 <= j < k && (#[trigger] chunks[j]).content_hash@ == chunks[k].content_hash@
}

/// How many chunks of the batch are duplicates.
pub open spec fn dup_count(db0: VectorDB, chunks: Seq<ChunkData>) -> int
    decreases chunks.len(),
{
    if chunks.len() == 0 {
        0
    } else {
        dup_count(db0, chunks.drop_last()) + if is_dup(db0, chunks, chunks.len() - 1) {
            1int
        } else {
            0
        }
    }
}

/// Counting duplicates only looks at the prefix before each chunk.
proof fn lemma_dup_prefix(db0: VectorDB, chunks: Seq<ChunkData>, k: int)
    requires
        0 <= k < chunks.len(),
    ensures
        is_dup(db0, chunks, k) == is_dup(db0, chunks.take(k + 1), k),
{
    assert(chunks.take(k + 1)[k] == chunks[k]);
    assert(forall|j: int| 0 <= j < k ==> chunks.take(k + 1)[j] == #[trigger] chunks[j]);
    if is_dup(db0, chunks, k) && !db0.has_hash(chunks[k].content_hash@) {
        let j = choose|j: int|
            0 <= j < k && (#[trigger] chunks[j]).content_hash@ == chunks[k].content_hash@;
        assert(chunks.take(k + 1)[j].content_hash@ == chunks.take(k + 1)[k].content_hash@);
    }
    if is_dup(db0, chunks.take(k + 1), k) && !db0.has_hash(chunks[k].content_hash@) {
        let j = choose|j: int|
            0 <= j < k && (#[trigger] chunks.take(k + 1)[j]).content_hash@ == chunks.take(
                k + 1,
            )[k].content_hash@;
        assert(chunks[j].content_hash@ == chunks[k].content_hash@);
    }
}

/// Dedup idempotence: when every chunk's hash is already stored, a second
/// ingest of the batch skips every chunk and creates none.
pub proof fn lemma_dedup_idempotent(db0: VectorDB, chunks: Seq<ChunkData>)
    requires
        forall|k: int| 0 <= k < chunks.len() ==> db0.has_hash((#[trigger] chunks[k]).content_hash@),
    ensures
        dup_count(db0, chunks) == chunks.len(),
    decreases chunks.len(),
{
    if chunks.len() > 0 {
        assert(forall|k: int|
            0 <= k < chunks.len() - 1 ==> db0.has_hash(
                (#[trigger] chunks.drop_last()[k]).content_hash@,
            ));
        lemma_dedup_idempotent(db0, chunks.drop_last());
        assert(db0.has_hash(chunks[chunks.len() - 1].content_hash@));
    }
}

/// Everything preparation guarantees of one prepared document against its
/// input: the content is kept, the title is the given one or synthesized
/// from the fresh id, every chunk carries its content's digest and the
/// document's ids, and content big enough to chunk yields at least one
/// chunk.
pub open spec fn prepared_from(p: PreparedDoc, input: DocumentInput, source_id: Seq<char>) -> bool {
    &&& p.content@ == input.content@
    &&& p.id@.len() == 36
    &&& crate::outside::iso_utc_shape(p.created_at@)
    &&& match input.title {
        Option::Some(t) => p.title@ == t@,
        Option::None => p.title@ == "Untitled-"@ + p.id@.take(8),
    }
    &&& p.chunks@.len() == p.chunk_count as int || p.chunk_count == 0xFFFF_FFFF
    &&& forall|k: int|
        0 <= k < p.chunks@.len() ==> (#[trigger] p.chunks@[k]).content_hash@ == md5_hex_of(
            p.chunks@[k].content@,
        )
    &&& forall|k: int|
        0 <= k < p.chunks@.len() ==> (#[trigger] p.chunks@[k]).document_id@ == p.id@
            && p.chunks@[k].source_id@ == source_id
    &&& (!crate::textutil::is_blank(input.content@) && input.content@.len()
        >= crate::chunking::MIN_CHUNK ==> p.chunks@.len() >= 1)
}

/// The inputs whose content is not blank, in order.
pub open spec fn nonblank_inputs(inputs: Seq<DocumentInput>) -> Seq<DocumentInput> {
    inputs.filter(|d: DocumentInput| crate::textutil::trim_spec(d.content@).len() > 0)
}

/// The chunk lists of the prepared documents, concatenated in order.
pub open spec fn flatten_chunks(docs: Seq<PreparedDoc>) -> Seq<ChunkData>
    decreases docs.len(),
{
    if docs.len() == 0 {
        Seq::empty()
    } else {
        flatten_chunks(docs.drop_last()) + docs.last().chunks@
    }
}

/// A copy of a string list, equal to the original.
fn clone_string_vec(v: &Vec<String>) -> (r: Vec<String>)
    ensures
        r@ == v@,
{
    let n = v.len();
    let mut r: Vec<String> = Vec::new();
    let mut i: usize = 0;
    while i < n
        invariant
            0 <= i <= n,
            n == v@.len(),
            r@ == v@.take(i as int),
        decreases n - i,
    {
        r.push(v[i].clone());
        proof {
            assert(v@.take(i as int).push(v@[i as int]) =~= v@.take(i + 1));
        }
        i = i + 1;
    }
    proof {
        assert(v@.take(n as int) =~= v@);
    }
    r
}

/// Two prepared chunks agree in every field (lists compared by value).
pub open spec fn chunk_data_eq(a: ChunkData, b: ChunkData) -> bool {
    &&& a.id == b.id
    &&& a.document_id == b.document_id
    &&& a.source_id == b.source_id
    &&& a.title == b.title
    &&& a.content == b.content
    &&& a.file_path == b.file_path
    &&& a.line_start == b.line_start
    &&& a.line_end == b.line_end
    &&& a.content_hash == b.content_hash
    &&& a.section == b.section
    &&& a.subsection == b.subsection
    &&& a.hierarchy@ == b.hierarchy@
    &&& a.has_code == b.has_code
}

/// A copy of a prepared chunk, agreeing with the original in every field.
pub fn clone_chunk_data(c: &ChunkData) -> (r: ChunkData)
    ensures
        chunk_data_eq(r, *c),
{
    ChunkData {
        id: c.id.clone(),
        document_id: c.document_id.clone(),
        source_id: c.source_id.clone(),
        title: crate::db::clone_opt_exact(&c.title),
        content: c.content.clone(),
        file_path: crate::db::clone_opt_exact(&c.file_path),
        line_start: c.line_start,
        line_end: c.line_end,
        content_hash: c.content_hash.clone(),
        section: crate::db::clone_opt_exact(&c.section),
        subsection: crate::db::clone_opt_exact(&c.subsection),
        hierarchy: clone_string_vec(&c.hierarchy),
        has_code: c.has_code,
    }
}

impl IngestPipeline {
    /// A pipeline with the default thresholds.
    pub fn new() -> (r: Self)
        ensures
            r.config.max_docs == 50,
    {
        IngestPipeline { config: Default::default(), chunker: ChunkerRegistry::new() }
    }

    /// A pipeline with explicit thresholds.
    pub fn with_config(config: BatchConfig) -> (r: Self)
        ensures
            r.config == config,
    {
        IngestPipeline { config, chunker: ChunkerRegistry::new() }
    }

    /// Prepares one document: a fresh id, the given or a synthesized title,
    /// a timestamp, and its chunks. Blank content yields nothing.
    pub fn prepare_document(&self, doc_input: &DocumentInput, source_id: &str) -> (r: Option<
        PreparedDoc,
    >)
        requires
            doc_input.content@.len() < 0x4000_0000,
        ensures
            match r {
                Option::Some(p) => prepared_from(p, *doc_input, source_id@)
                    && crate::textutil::trim_spec(doc_input.content@).len() > 0,
                Option::None => crate::textutil::trim_spec(doc_input.content@).len() == 0,
            },
    {
        let v = crate::textutil::to_chars(doc_input.content.as_str());
        let blank = crate::textutil::range_is_blank(&v, 0, v.len());
        if blank {
            proof {
                assert(v@.subrange(0, v@.len() as int) =~= doc_input.content@);
                crate::textutil::lemma_blank_trim(doc_input.content@);
            }
            return Option::None;
        }
        proof {
            assert(v@.subrange(0, v@.len() as int) =~= doc_input.content@);
            crate::chunking::markdown::lemma_trim_spec_nonblank(doc_input.content@);
        }
        let doc_id = new_uuid();
        let title: String = match &doc_input.title {
            Option::Some(t) => t.clone(),
            Option::None => {
                let mut t = String::from_str("Untitled-");
                t.append(doc_id.as_str().substring_char(0, 8));
                proof {
                    assert(doc_id@.subrange(0, 8) =~= doc_id@.take(8));
                }
                t
            },
        };
        let created_at = now_utc_iso();
        let meta = DocMetadata {
            document_id: doc_id.clone(),
            source_id: String::from_str(source_id),
            file_path: crate::chunking::clone_opt_string(&doc_input.file_path),
        };
        let fp: Option<&str> = match &doc_input.file_path {
            Option::Some(p) => Option::Some(p.as_str()),
            Option::None => Option::None,
        };
        let raw = self.chunker.chunk(doc_input.content.as_str(), fp, &meta);
        proof {
            lemma_dispatch_hashes(doc_input.content@, meta, raw@, fp);
            if !crate::textutil::is_blank(doc_input.content@) && doc_input.content@.len()
                >= crate::chunking::MIN_CHUNK {
                assert(raw@.len() >= 1);
            }
        }
        let mut chunks: Vec<ChunkData> = Vec::new();
        let mut raw = raw;
        let n = raw.len();
        let ghost all = raw@;
        let mut done: usize = 0;
        while done < n
            invariant
                0 <= done <= n,
                n == all.len(),
                raw@ == all.skip(done as int),
                chunks@.len() == done,
                forall|k: int|
                    0 <= k < all.len() ==> (#[trigger] all[k]).metadata.content_hash@ == md5_hex_of(
                        all[k].content@,
                    ),
                forall|k: int|
                    0 <= k < done ==> (#[trigger] chunks@[k]).content_hash@ == md5_hex_of(
                        chunks@[k].content@,
                    ),
                forall|k: int|
                    0 <= k < done ==> (#[trigger] chunks@[k]).document_id@ == doc_id@
                        && chunks@[k].source_id@ == source_id@,
            decreases n - done,
        {
            let c = raw.remove(0);
            proof {
                assert(all.skip(done as int)[0] == all[done as int]);
                assert(all.skip(done as int).remove(0) =~= all.skip(done + 1));
            }
            chunks.push(
                ChunkData {
                    id: c.id,
                    document_id: doc_id.clone(),
                    source_id: String::from_str(source_id),
                    title: c.metadata.title,
                    content: c.content,
                    file_path: c.metadata.file_path,
                    line_start: c.metadata.line_start,
                    line_end: c.metadata.line_end,
                    content_hash: c.metadata.content_hash,
                    section: c.metadata.section,
                    subsection: c.metadata.subsection,
                    hierarchy: c.metadata.hierarchy,
                    has_code: c.metadata.has_code,
                },
            );
            done = done + 1;
        }
        let blen = doc_input.content.as_str().len();
        let content_length: u32 = if blen > 0xFFFF_FFFF {
            0xFFFF_FFFF
        } else {
            blen as u32
        };
        let ccount: u32 = if chunks.len() > 0xFFFF_FFFF {
            0xFFFF_FFFF
        } else {
            chunks.len() as u32
        };
        Option::Some(
            PreparedDoc {
                id: doc_id,
                content: doc_input.content.clone(),
                title,
                file_path: crate::chunking::clone_opt_string(&doc_input.file_path),
                created_at,
                content_length,
                chunk_count: ccount,
                chunks,
            },
        )
    }

    /// Prepares a whole batch: the prepared documents are exactly the
    /// non-blank inputs, in order, and the returned chunk list is the
    /// concatenation of their chunk lists.
    #[verifier::loop_isolation(false)]
    pub fn prepare_documents(&self, source_id: &str, documents: &Vec<DocumentInput>) -> (r: (
        Vec<PreparedDoc>,
        Vec<ChunkData>,
    ))
        requires
            forall|i: int|
                0 <= i < documents@.len() ==> (#[trigger] documents@[i]).content@.len()
                    < 0x4000_0000,
        ensures
            r.0@.len() == nonblank_inputs(documents@).len(),
            forall|k: int|
                0 <= k < r.0@.len() ==> prepared_from(
                    #[trigger] r.0@[k],
                    nonblank_inputs(documents@)[k],
                    source_id@,
                ),
            r.1@.len() == flatten_chunks(r.0@).len(),
            forall|m: int|
                0 <= m < r.1@.len() ==> chunk_data_eq(
                    #[trigger] r.1@[m],
                    flatten_chunks(r.0@)[m],
                ),
    {
        let mut docs: Vec<PreparedDoc> = Vec::new();
        let mut chunks: Vec<ChunkData> = Vec::new();
        let nd = documents.len();
        let mut i: usize = 0;
        proof {
            reveal(Seq::filter);
            assert(nonblank_inputs(documents@.take(0)) =~= Seq::<DocumentInput>::empty());
            assert(flatten_chunks(docs@) =~= Seq::<ChunkData>::empty());
        }
        while i < nd
            invariant
                0 <= i <= nd,
                nd == documents@.len(),
                docs@.len() == nonblank_inputs(documents@.take(i as int)).len(),
                forall|k: int|
                    0 <= k < docs@.len() ==> prepared_from(
                        #[trigger] docs@[k],
                        nonblank_inputs(documents@.take(i as int))[k],
                        source_id@,
                    ),
                chunks@.len() == flatten_chunks(docs@).len(),
                forall|m: int|
                    0 <= m < chunks@.len() ==> chunk_data_eq(
                        #[trigger] chunks@[m],
                        flatten_chunks(docs@)[m],
                    ),
            decreases nd - i,
        {
            let ghost pre_filter = nonblank_inputs(documents@.take(i as int));
            proof {
                reveal(Seq::filter);
                assert(documents@.take(i + 1).drop_last() =~= documents@.take(i as int));
                assert(documents@.take(i + 1).last() == documents@[i as int]);
            }
            match self.prepare_document(&documents[i], source_id) {
                Option::Some(p) => {
                    // gather a copy of the chunks for embedding
                    let nc = p.chunks.len();
                    let ghost chunks_pre = chunks@;
                    let mut k: usize = 0;
                    while k < nc
                        invariant
                            0 <= k <= nc,
                            nc == p.chunks@.len(),
                            chunks@.len() == chunks_pre.len() + k,
                            forall|m: int|
                                0 <= m < chunks_pre.len() ==> #[trigger] chunks@[m]
                                    == chunks_pre[m],
                            forall|m: int|
                                0 <= m < k ==> chunk_data_eq(
                                    #[trigger] chunks@[chunks_pre.len() + m],
                                    p.chunks@[m],
                                ),
                        decreases nc - k,
                    {
                        let c = clone_chunk_data(&p.chunks[k]);
                        chunks.push(c);
                        k = k + 1;
                    }
                    proof {
                        assert(nonblank_inputs(documents@.take(i + 1)) =~= pre_filter.push(
                            documents@[i as int],
                        ));
                    }
                    let ghost docs_pre = docs@;
                    docs.push(p);
                    proof {
                        assert(docs@.drop_last() =~= docs_pre);
                        assert(flatten_chunks(docs@) == flatten_chunks(docs_pre)
                            + docs@.last().chunks@);
                        assert(chunks@.len() == flatten_chunks(docs@).len());
                        assert forall|m: int| 0 <= m < chunks@.len() implies chunk_data_eq(
                            #[trigger] chunks@[m],
                            flatten_chunks(docs@)[m],
                        ) by {
                            if m < chunks_pre.len() {
                                assert(chunks@[m] == chunks_pre[m]);
                                assert(chunk_data_eq(chunks_pre[m], flatten_chunks(docs_pre)[m]));
                                assert(flatten_chunks(docs@)[m] == flatten_chunks(docs_pre)[m]);
                            } else {
                                let m2 = m - chunks_pre.len();
                                assert(chunks@[chunks_pre.len() + m2] == chunks@[m]);
                                assert(chunk_data_eq(chunks@[chunks_pre.len() + m2], p.chunks@[m2]));
                                assert(flatten_chunks(docs@)[m] == p.chunks@[m2]);
                            }
                        }
                    }
                },
                Option::None => {
                    proof {
                        assert(nonblank_inputs(documents@.take(i + 1)) =~= pre_filter);
                    }
                },
            }
            i = i + 1;
        }
        proof {
            assert(documents@.take(nd as int) =~= documents@);
        }
        (docs, chunks)
    }
}

/// Appending a batch whose hashes and ids are all new inserts every record.
proof fn lemma_fold_appends(chunks0: Seq<crate::db::StoredChunk>, b: Seq<crate::db::StoredChunk>)
    requires
        forall|i: int, j: int|
            0 <= i < chunks0.len() && 0 <= j < b.len() ==> (#[trigger] chunks0[i]).record.content_hash@
                != (#[trigger] b[j]).record.content_hash@ && chunks0[i].record.id@
                != b[j].record.id@,
        forall|i: int, j: int|
            0 <= i < j < b.len() ==> (#[trigger] b[i]).record.content_hash@
                != (#[trigger] b[j]).record.content_hash@ && b[i].record.id@ != b[j].record.id@,
    ensures
        VectorDB::insert_fold(chunks0, b) == chunks0 + b,
    decreases b.len(),
{
    if b.len() == 0 {
        assert(chunks0 + b =~= chunks0);
    } else {
        assert(forall|i: int, j: int|
            0 <= i < chunks0.len() && 0 <= j < b.len() - 1 ==> (#[trigger] chunks0[i]).record.content_hash@
                != (#[trigger] b.drop_last()[j]).record.content_hash@ && chunks0[i].record.id@
                != b.drop_last()[j].record.id@);
        assert(forall|i: int, j: int|
            0 <= i < j < b.len() - 1 ==> (#[trigger] b.drop_last()[i]).record.content_hash@
                != (#[trigger] b.drop_last()[j]).record.content_hash@
                && b.drop_last()[i].record.id@ != b.drop_last()[j].record.id@);
        lemma_fold_appends(chunks0, b.drop_last());
        let pre = chunks0 + b.drop_last();
        let c = b.last();
        assert forall|i: int| 0 <= i < pre.len() implies (#[trigger] pre[i]).record.content_hash@
            != c.record.content_hash@ && pre[i].record.id@ != c.record.id@ by {
            if i < chunks0.len() {
                assert(pre[i] == chunks0[i]);
                assert(b[b.len() - 1] == c);
            } else {
                assert(pre[i] == b[i - chunks0.len()]);
            }
        }
        assert(VectorDB::insert_fold(chunks0, b) == pre.push(c));
        assert(pre.push(c) =~= chunks0 + b);
    }
}

/// Every batch hash is stored once the non-duplicates are.
proof fn lemma_hash_covered(db0: VectorDB, chunks: Seq<ChunkData>, dbf: VectorDB, k: int)
    requires
        0 <= k < chunks.len(),
        forall|m: int|
            0 <= m < chunks.len() && !is_dup(db0, chunks, m) ==> dbf.has_hash(
                (#[trigger] chunks[m]).content_hash@,
            ),
        forall|h: Seq<char>| #[trigger] db0.has_hash(h) ==> dbf.has_hash(h),
    ensures
        dbf.has_hash(chunks[k].content_hash@),
    decreases k,
{
    if is_dup(db0, chunks, k) {
        if db0.has_hash(chunks[k].content_hash@) {
        } else {
            let j = choose|j: int|
                0 <= j < k && (#[trigger] chunks[j]).content_hash@ == chunks[k].content_hash@;
            lemma_hash_covered(db0, chunks, dbf, j);
        }
    }
}

impl IngestPipeline {
    /// Writes an embedded batch: chunks whose content hash is already stored
    /// (anywhere in the store, or earlier in the batch) are silently skipped
    /// and counted; everything else is written, content store first, then
    /// vector index, then keyword index.
    #[verifier::loop_isolation(false)]
    #[verifier::rlimit(100)]
    #[verifier::spinoff_prover]
    pub fn write_embedded_batch(
        &self,
        db: &mut VectorDB,
        kw: &mut BM25Index,
        content: &mut ContentStore,
        batch: EmbeddedBatch,
    ) -> (r: IngestResponse)
        requires
            old(db).wf(),
            old(kw).wf(),
            batch.embeddings@.len() == batch.chunks@.len(),
            forall|k: int|
                0 <= k < batch.embeddings@.len() ==> (#[trigger] batch.embeddings@[k])@.len()
                    == old(db).dim && vec_in_range(batch.embeddings@[k]@),
            batch.chunks@.len() < 0xFFFF_FFFF,
            batch.documents@.len() < 0xFFFF_FFFF,
            forall|k: int|
                0 <= k < batch.chunks@.len() ==> !old(db).has_chunk_id(
                    (#[trigger] batch.chunks@[k]).id@,
                ),
            forall|i: int, j: int|
                0 <= i < j < batch.chunks@.len() ==> (#[trigger] batch.chunks@[i]).id@
                    != (#[trigger] batch.chunks@[j]).id@,
        ensures
            final(db).wf(),
            final(kw).wf(),
            final(db).dim == old(db).dim,
            r.source_id@ == batch.source_id@,
            r.chunks_skipped as int == dup_count(*old(db), batch.chunks@),
            r.chunks_created as int == batch.chunks@.len() - dup_count(*old(db), batch.chunks@),
            r.documents_created as int == batch.documents@.len(),
            r.document_ids@.len() == batch.documents@.len(),
            forall|k: int|
                0 <= k < batch.chunks@.len() ==> final(db).has_hash(
                    (#[trigger] batch.chunks@[k]).content_hash@,
                ),
            forall|k: int|
                0 <= k < batch.chunks@.len() && !is_dup(*old(db), batch.chunks@, k)
                    ==> exists|j: int|
                    0 <= j < final(db).chunks@.len() && (#[trigger] final(db).chunks@[j]).record.id@
                        == (#[trigger] batch.chunks@[k]).id@
                        && final(db).chunks@[j].record.content_hash@
                        == batch.chunks@[k].content_hash@ && final(db).chunks@[j].vector
                        == batch.embeddings@[k],
            forall|d: int|
                0 <= d < batch.documents@.len() ==> #[trigger] r.document_ids@[d]
                    == (#[trigger] batch.documents@[d]).id,
            final(content).docs@.len() == old(content).docs@.len() + batch.documents@.len(),
            final(db).docs@.len() == old(db).docs@.len() + batch.documents@.len(),
    {
        let ghost db0 = *db;
        let ghost all = batch.chunks@;
        // phase one: pick the chunks that survive global deduplication
        let mut recs: Vec<ChunkRecord> = Vec::new();
        let mut vecs: Vec<Vec<i64>> = Vec::new();
        let mut rows: Vec<ChunkRow> = Vec::new();
        let mut kins: Vec<ChunkInput> = Vec::new();
        let mut skipped: u32 = 0;
        let mut chunks = batch.chunks;
        let mut embeddings = batch.embeddings;
        let n = chunks.len();
        let mut k: usize = 0;
        proof {
            assert(all.take(0) =~= Seq::<ChunkData>::empty());
        }
        while k < n
            invariant
                0 <= k <= n,
                n == all.len(),
                chunks@ == all.skip(k as int),
                embeddings@.len() == n - k,
                forall|m: int|
                    0 <= m < n - k ==> #[trigger] embeddings@[m] == batch.embeddings@[k + m],
                *db == db0,
                skipped as int == dup_count(db0, all.take(k as int)),
                skipped <= k,
                recs@.len() == vecs@.len() == rows@.len() == kins@.len(),
                recs@.len() == k - skipped as int,
                // survivors carry new, distinct hashes and ids, from the prefix
                forall|m: int|
                    0 <= m < recs@.len() ==> exists|j: int|
                        0 <= j < k && (#[trigger] recs@[m]).content_hash@
                            == (#[trigger] all[j]).content_hash@ && recs@[m].id@ == all[j].id@
                            && !is_dup(db0, all, j),
                forall|m: int| 0 <= m < recs@.len() ==> !db0.has_hash(
                    (#[trigger] recs@[m]).content_hash@,
                ),
                forall|m1: int, m2: int|
                    0 <= m1 < m2 < recs@.len() ==> (#[trigger] recs@[m1]).content_hash@
                        != (#[trigger] recs@[m2]).content_hash@ && recs@[m1].id@ != recs@[m2].id@,
                // every prefix chunk's hash is in the store or among survivors
                forall|j: int|
                    0 <= j < k ==> db0.has_hash((#[trigger] all[j]).content_hash@) || exists|m: int|
                        0 <= m < recs@.len() && (#[trigger] recs@[m]).content_hash@
                            == all[j].content_hash@,
                // every surviving prefix chunk sits among the survivors with
                // its paired embedding
                forall|j: int|
                    0 <= j < k && !is_dup(db0, all, j) ==> #[trigger] survivor_selected(
                        recs@,
                        vecs@,
                        all,
                        batch.embeddings@,
                        j,
                    ),
                forall|m: int| 0 <= m < vecs@.len() ==> (#[trigger] vecs@[m])@.len() == db0.dim
                    && vec_in_range(vecs@[m]@),
                forall|m: int| 0 <= m < recs@.len() ==> (#[trigger] rows@[m]).id@ == recs@[m].id@
                    && kins@[m].chunk_id@ == recs@[m].id@,
            decreases n - k,
        {
            let c = chunks.remove(0);
            let e = embeddings.remove(0);
            proof {
                assert(all.skip(k as int)[0] == all[k as int]);
                assert(all.skip(k as int).remove(0) =~= all.skip(k + 1));
                assert(c == all[k as int]);
                assert(e == batch.embeddings@[k as int]);
                assert(all.take(k + 1).drop_last() =~= all.take(k as int));
                assert(all.take(k + 1).last() == all[k as int]);
                lemma_dup_prefix(db0, all, k as int);
            }
            let mut dup = db.chunk_exists(c.content_hash.as_str());
            if !dup {
                let nr = recs.len();
                let mut m: usize = 0;
                while m < nr && !dup
                    invariant
                        0 <= m <= nr,
                        nr == recs@.len(),
                        k < n,
                        !dup ==> forall|mm: int|
                            0 <= mm < m ==> (#[trigger] recs@[mm]).content_hash@
                                != all[k as int].content_hash@,
                        dup ==> exists|mm: int|
                            0 <= mm < nr && (#[trigger] recs@[mm]).content_hash@
                                == all[k as int].content_hash@,
                    decreases nr - m + (if dup { 0int } else { 1 }),
                {
                    if crate::textutil::str_eq(
                        recs[m].content_hash.as_str(),
                        c.content_hash.as_str(),
                    ) {
                        dup = true;
                    } else {
                        m = m + 1;
                    }
                }
            }
            proof {
                // the check agrees with the duplicate predicate
                if dup && !db0.has_hash(all[k as int].content_hash@) {
                    let mm = choose|mm: int|
                        0 <= mm < recs@.len() && (#[trigger] recs@[mm]).content_hash@
                            == all[k as int].content_hash@;
                    let j = choose|j: int|
                        0 <= j < k && (#[trigger] recs@[mm]).content_hash@
                            == (#[trigger] all[j]).content_hash@ && recs@[mm].id@ == all[j].id@
                            && !is_dup(db0, all, j);
                    assert(all[j].content_hash@ == all[k as int].content_hash@);
                    assert(is_dup(db0, all, k as int));
                }
                if !dup {
                    if is_dup(db0, all, k as int) {
                        let j = choose|j: int|
                            0 <= j < k && (#[trigger] all[j]).content_hash@
                                == all[k as int].content_hash@;
                        assert(db0.has_hash(all[j].content_hash@) || exists|m: int|
                            0 <= m < recs@.len() && (#[trigger] recs@[m]).content_hash@
                                == all[j].content_hash@);
                        assert(false);
                    }
                }
            }
            if dup {
                skipped = skipped + 1;
            } else {
                let ghost pre_recs = recs@;
                let ghost pre_vecs = vecs@;
                let rec = ChunkRecord {
                    id: c.id.clone(),
                    document_id: c.document_id.clone(),
                    source_id: c.source_id.clone(),
                    title: c.title,
                    file_path: c.file_path,
                    line_start: Option::Some(c.line_start),
                    line_end: Option::Some(c.line_end),
                    content_hash: c.content_hash,
                    section: c.section,
                    subsection: c.subsection,
                    hierarchy: c.hierarchy,
                    has_code: c.has_code,
                };
                let row = ChunkRow {
                    id: c.id.clone(),
                    document_id: c.document_id.clone(),
                    content: c.content.clone(),
                };
                let kin = ChunkInput {
                    chunk_id: c.id,
                    source_id: c.source_id,
                    document_id: c.document_id,
                    content: c.content,
                };
                recs.push(rec);
                vecs.push(e);
                rows.push(row);
                kins.push(kin);
                proof {
                    assert(recs@[recs@.len() - 1].content_hash@ == all[k as int].content_hash@);
                    assert(recs@[recs@.len() - 1].id@ == all[k as int].id@);
                    assert(!is_dup(db0, all, k as int));
                    assert forall|m1: int, m2: int|
                        0 <= m1 < m2 < recs@.len() implies (#[trigger] recs@[m1]).content_hash@
                        != (#[trigger] recs@[m2]).content_hash@ && recs@[m1].id@
                        != recs@[m2].id@ by {
                        if m2 == recs@.len() - 1 {
                            assert(recs@[m1] == pre_recs[m1]);
                            let j = choose|j: int|
                                0 <= j < k && (#[trigger] pre_recs[m1]).content_hash@
                                    == (#[trigger] all[j]).content_hash@ && pre_recs[m1].id@
                                    == all[j].id@ && !is_dup(db0, all, j);
                            assert(all[j].id@ != all[k as int].id@);
                            if all[j].content_hash@ == all[k as int].content_hash@ {
                                assert(is_dup(db0, all, k as int));
                            }
                        } else {
                            assert(recs@[m1] == pre_recs[m1] && recs@[m2] == pre_recs[m2]);
                        }
                    }
                    assert forall|j: int| 0 <= j < k + 1 implies db0.has_hash(
                        (#[trigger] all[j]).content_hash@,
                    ) || exists|m: int|
                        0 <= m < recs@.len() && (#[trigger] recs@[m]).content_hash@
                            == all[j].content_hash@ by {
                        if j < k {
                            if !db0.has_hash(all[j].content_hash@) {
                                let m = choose|m: int|
                                    0 <= m < pre_recs.len() && (#[trigger] pre_recs[m]).content_hash@
                                        == all[j].content_hash@;
                                assert(recs@[m].content_hash@ == all[j].content_hash@);
                            }
                        } else {
                            assert(recs@[recs@.len() - 1].content_hash@
                                == all[j].content_hash@);
                        }
                    }
                    assert forall|j: int|
                        0 <= j < k + 1 && !is_dup(db0, all, j) implies #[trigger] survivor_selected(
                        recs@,
                        vecs@,
                        all,
                        batch.embeddings@,
                        j,
                    ) by {
                        if j < k {
                            assert(survivor_selected(pre_recs, pre_vecs, all, batch.embeddings@, j));
                            let m = choose|m: int|
                                0 <= m < pre_recs.len() && (#[trigger] pre_recs[m]).id@
                                    == all[j].id@ && pre_recs[m].content_hash@
                                    == all[j].content_hash@ && pre_vecs[m]
                                    == batch.embeddings@[j];
                            assert(recs@[m] == pre_recs[m] && vecs@[m] == pre_vecs[m]);
                        } else {
                            assert(recs@[recs@.len() - 1].id@ == all[j].id@
                                && vecs@[vecs@.len() - 1] == batch.embeddings@[j]);
                        }
                    }
                }
            }
            k = k + 1;
        }
        proof {
            assert(all.take(n as int) =~= all);
        }

        // phase two: the content store first
        let mut doc_records: Vec<crate::types::DocumentRecord> = Vec::new();
        let mut document_ids: Vec<String> = Vec::new();
        let mut docs = batch.documents;
        let nd = docs.len();
        let ghost alldocs = docs@;
        let mut d: usize = 0;
        while d < nd
            invariant
                0 <= d <= nd,
                nd == alldocs.len(),
                docs@ == alldocs.skip(d as int),
                doc_records@.len() == d,
                document_ids@.len() == d,
                forall|dd: int|
                    0 <= dd < d ==> #[trigger] document_ids@[dd] == alldocs[dd].id,
                content.docs@.len() == old(content).docs@.len() + d,
                content.chunks@ == old(content).chunks@,
                *db == db0,
                *kw == *old(kw),
            decreases nd - d,
        {
            let doc = docs.remove(0);
            proof {
                assert(alldocs.skip(d as int).remove(0) =~= alldocs.skip(d + 1));
            }
            document_ids.push(doc.id.clone());
            doc_records.push(
                crate::types::DocumentRecord {
                    id: doc.id.clone(),
                    source_id: batch.source_id.clone(),
                    title: doc.title.clone(),
                    file_path: crate::db::clone_opt_exact(&doc.file_path),
                    created_at: doc.created_at.clone(),
                    chunk_count: doc.chunk_count,
                    content_length: doc.content_length,
                },
            );
            content.insert_document(
                DocumentRow {
                    id: doc.id,
                    source_id: batch.source_id.clone(),
                    title: doc.title,
                    file_path: doc.file_path,
                    content: doc.content,
                    created_at: doc.created_at,
                },
            );
            d = d + 1;
        }
        content.insert_chunks(rows);

        // phase three: the vector index
        let mut dr = doc_records;
        let nr = dr.len();
        let mut d2: usize = 0;
        while d2 < nr
            invariant
                0 <= d2 <= nr,
                db.wf(),
                db.dim == db0.dim,
                db.chunks@ == db0.chunks@,
                db.docs@.len() == db0.docs@.len() + d2,
                dr@.len() == nr - d2,
                *kw == *old(kw),
            decreases nr - d2,
        {
            let rec = dr.remove(0);
            db.insert_document(rec);
            d2 = d2 + 1;
        }
        let ghost batch_stored = Seq::new(
            recs@.len(),
            |i: int| crate::db::StoredChunk { record: recs@[i], vector: vecs@[i] },
        );
        let ghost recs_snap = recs@;
        let ghost vecs_snap = vecs@;
        let res = db.insert_chunks(recs, vecs);
        proof {
            match res {
                Result::Ok(()) => {
                    assert forall|i: int, j: int|
                        0 <= i < db0.chunks@.len() && 0 <= j < batch_stored.len() implies (
                    #[trigger] db0.chunks@[i]).record.content_hash@
                        != (#[trigger] batch_stored[j]).record.content_hash@
                        && db0.chunks@[i].record.id@ != batch_stored[j].record.id@ by {
                        assert(batch_stored[j].record == recs_snap[j]);
                        assert(!db0.has_hash(recs_snap[j].content_hash@));
                        let w = choose|w: int|
                            0 <= w < all.len() && (#[trigger] recs_snap[j]).content_hash@
                                == (#[trigger] all[w]).content_hash@ && recs_snap[j].id@
                                == all[w].id@ && !is_dup(db0, all, w);
                        assert(!db0.has_chunk_id(all[w].id@));
                    }
                    assert forall|i: int, j: int|
                        0 <= i < j < batch_stored.len() implies (
                    #[trigger] batch_stored[i]).record.content_hash@
                        != (#[trigger] batch_stored[j]).record.content_hash@
                        && batch_stored[i].record.id@ != batch_stored[j].record.id@ by {
                        assert(batch_stored[i].record == recs_snap[i]);
                        assert(batch_stored[j].record == recs_snap[j]);
                    }
                    lemma_fold_appends(db0.chunks@, batch_stored);
                    assert(db.chunks@ == db0.chunks@ + batch_stored);
                },
                Result::Err(_) => {
                    assert(false);
                },
            }
            // every batch hash is now stored
            assert forall|h: Seq<char>| #[trigger] db0.has_hash(h) implies db.has_hash(h) by {
                let i = choose|i: int|
                    0 <= i < db0.chunks@.len() && (#[trigger] db0.chunks@[i]).record.content_hash@
                        == h;
                assert(db.chunks@[i] == db0.chunks@[i]);
            }
            assert forall|m: int|
                0 <= m < all.len() && !is_dup(db0, all, m) implies db.has_hash(
                (#[trigger] all[m]).content_hash@,
            ) by {
                let mm = choose|mm: int|
                    0 <= mm < recs_snap.len() && (#[trigger] recs_snap[mm]).content_hash@
                        == all[m].content_hash@;
                assert(db.chunks@[db0.chunks@.len() + mm].record.content_hash@
                    == all[m].content_hash@);
            }
            assert forall|m: int| 0 <= m < all.len() implies db.has_hash(
                (#[trigger] all[m]).content_hash@,
            ) by {
                lemma_hash_covered(db0, all, *db, m);
            }
            // each surviving chunk was appended with its paired embedding
            assert forall|m: int| 0 <= m < recs_snap.len() implies #[trigger] db.chunks@[db0.chunks@.len()
                + m].record == recs_snap[m] && db.chunks@[db0.chunks@.len() + m].vector
                == vecs_snap[m] by {
                assert(db.chunks@[db0.chunks@.len() + m] == batch_stored[m]);
            }
            lemma_survivors_appended(db0, *db, all, batch.embeddings@, recs_snap, vecs_snap);
        }

        // phase four: the keyword index
        let mut kins = kins;
        let nk = kins.len();
        let mut k2: usize = 0;
        while k2 < nk
            invariant
                0 <= k2 <= nk,
                kw.wf(),
                kins@.len() == nk - k2,
                db.wf(),
                db.dim == db0.dim,
                forall|m: int|
                    0 <= m < all.len() ==> db.has_hash((#[trigger] all[m]).content_hash@),
                db.docs@.len() == db0.docs@.len() + alldocs.len(),
            decreases nk - k2,
        {
            let kin = kins.remove(0);
            kw.index(kin);
            k2 = k2 + 1;
        }

        let created: u32 = (n as u32) - skipped;
        IngestResponse {
            source_id: batch.source_id,
            documents_created: nd as u32,
            chunks_created: created,
            chunks_skipped: skipped,
            document_ids,
        }
    }
}

/// Once the selected survivors are appended to the store, every surviving
/// batch chunk sits in the store with its paired embedding.
proof fn lemma_survivors_appended(
    db0: VectorDB,
    dbf: VectorDB,
    all: Seq<ChunkData>,
    embs: Seq<Vec<i64>>,
    recs: Seq<ChunkRecord>,
    vecs: Seq<Vec<i64>>,
)
    requires
        dbf.chunks@.len() == db0.chunks@.len() + recs.len(),
        vecs.len() == recs.len(),
        forall|m: int|
            0 <= m < recs.len() ==> #[trigger] dbf.chunks@[db0.chunks@.len() + m].record
                == recs[m] && dbf.chunks@[db0.chunks@.len() + m].vector == vecs[m],
        forall|j: int|
            0 <= j < all.len() && !is_dup(db0, all, j) ==> #[trigger] survivor_selected(
                recs,
                vecs,
                all,
                embs,
                j,
            ),
    ensures
        forall|k: int|
            0 <= k < all.len() && !is_dup(db0, all, k) ==> exists|j: int|
                0 <= j < dbf.chunks@.len() && (#[trigger] dbf.chunks@[j]).record.id@ == (
                #[trigger] all[k]).id@ && dbf.chunks@[j].record.content_hash@
                    == all[k].content_hash@ && dbf.chunks@[j].vector == embs[k],
{
    assert forall|k: int| 0 <= k < all.len() && !is_dup(db0, all, k) implies exists|j: int|
        0 <= j < dbf.chunks@.len() && (#[trigger] dbf.chunks@[j]).record.id@ == (
        #[trigger] all[k]).id@ && dbf.chunks@[j].record.content_hash@ == all[k].content_hash@
            && dbf.chunks@[j].vector == embs[k] by {
        assert(survivor_selected(recs, vecs, all, embs, k));
        let m = choose|m: int|
            0 <= m < recs.len() && (#[trigger] recs[m]).id@ == all[k].id@
                && recs[m].content_hash@ == all[k].content_hash@ && vecs[m] == embs[k];
        assert(dbf.chunks@[db0.chunks@.len() + m].record == recs[m]);
    }
}

/// Every chunk the registry emits carries the digest of its own content.
proof fn lemma_dispatch_hashes(
    doc: Seq<char>,
    meta: DocMetadata,
    chunks: Seq<crate::chunking::Chunk>,
    fp: Option<&str>,
)
    requires
        forall|p: &str|
            fp == Option::Some(p) ==> crate::chunking::dispatch_ok(
                crate::chunking::extension_of(#[trigger] p@),
                doc,
                meta,
                chunks,
            ),
        fp is None ==> crate::chunking::fallback::window_chunks_ok(doc, meta, chunks),
    ensures
        forall|k: int|
            0 <= k < chunks.len() ==> (#[trigger] chunks[k]).metadata.content_hash@ == md5_hex_of(
                chunks[k].content@,
            ),
{
    assert forall|k: int| 0 <= k < chunks.len() implies (#[trigger] chunks[k]).metadata.content_hash@
        == md5_hex_of(chunks[k].content@) by {
        match fp {
            Option::Some(p) => {
                assert(crate::chunking::dispatch_ok(
                    crate::chunking::extension_of(p@),
                    doc,
                    meta,
                    chunks,
                ));
                let e = crate::chunking::extension_of(p@);
                if e == Option::Some("md"@) || e == Option::Some("markdown"@) || e == Option::Some(
                    "pdf"@,
                ) {
                    assert(crate::chunking::markdown::md_chunk_ok(doc, meta, chunks[k]));
                } else if e == Option::Some("txt"@) {
                    assert(crate::chunking::text::text_chunk_ok(doc, meta, chunks[k]));
                } else {
                    assert(crate::chunking::fallback::window_chunk_ok(doc, meta, chunks[k]));
                }
            },
            Option::None => {
                assert(crate::chunking::fallback::window_chunk_ok(doc, meta, chunks[k]));
            },
        }
    }
}

} // verus!
