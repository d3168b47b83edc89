use eywa::bm25::{BM25Index, ChunkInput};
use eywa::pipeline::{EmbeddedBatch, IngestPipeline};
use eywa::types::DocumentInput;
use eywa::Eywa;

fn input(content: &str, title: &str, path: &str) -> DocumentInput {
    DocumentInput {
        content: content.to_string(),
        title: Some(title.to_string()),
        file_path: Some(path.to_string()),
        is_pdf: false,
    }
}

/// A deterministic stand-in embedding: a unit axis chosen by content length.
fn fake_embedding(text: &str, dim: usize) -> Vec<i64> {
    let mut v = vec![0_i64; dim];
    v[text.len() % dim] = 1_000_000;
    v
}

fn embed_batch(kb: &Eywa, source_id: &str, docs: Vec<DocumentInput>) -> EmbeddedBatch {
    let pipeline = IngestPipeline::new();
    let (documents, chunks) = pipeline.prepare_documents(source_id, &docs);
    let embeddings = chunks.iter().map(|c| fake_embedding(&c.content, kb.db.dim)).collect();
    EmbeddedBatch { source_id: source_id.to_string(), documents, chunks, embeddings }
}

fn long_text(word: &str) -> String {
    format!("{} ", word).repeat(40)
}

#[test]
fn ingest_creates_documents_and_chunks() {
    let mut kb = Eywa::new(4);
    let batch = embed_batch(&kb, "docs", vec![input(&long_text("alpha"), "A", "a.txt")]);
    let r = kb.ingest_embedded(batch);
    assert_eq!(r.documents_created, 1);
    assert!(r.chunks_created >= 1);
    assert_eq!(r.chunks_skipped, 0);
    assert_eq!(kb.content.count_documents(), 1);
}

#[test]
fn second_ingest_skips_every_chunk() {
    // the same document set ingested twice back-to-back: the second run
    // creates nothing and skips the full chunk count
    let mut kb = Eywa::new(4);
    let text = long_text("dedup");
    let first = embed_batch(&kb, "a", vec![input(&text, "D", "d.txt")]);
    let r1 = kb.ingest_embedded(first);
    assert!(r1.chunks_created >= 1);

    let second = embed_batch(&kb, "b", vec![input(&text, "D", "d.txt")]);
    let total = second.chunks.len() as u32;
    let r2 = kb.ingest_embedded(second);
    assert_eq!(r2.chunks_created, 0);
    assert_eq!(r2.chunks_skipped, total);
    assert!(r2.chunks_skipped >= 1);
}

#[test]
fn delete_source_removes_from_every_store() {
    let mut kb = Eywa::new(4);
    let b1 = embed_batch(&kb, "keep", vec![input(&long_text("graphql"), "G", "g.txt")]);
    kb.ingest_embedded(b1);
    let b2 = embed_batch(&kb, "drop", vec![input(&long_text("rest"), "R", "r.txt")]);
    kb.ingest_embedded(b2);

    let before = kb.content.count_documents();
    assert_eq!(before, 2);

    kb.delete_source("drop");

    let sources = kb.list_sources();
    assert!(sources.iter().all(|s| s.id != "drop"));
    assert!(sources.iter().any(|s| s.id == "keep"));
    assert_eq!(kb.content.count_documents(), 1);
    let hits = kb.bm25_index.search("rest", 10);
    assert!(hits.is_empty());
}

#[test]
fn hybrid_search_finds_ingested_text() {
    let mut kb = Eywa::new(4);
    let text = long_text("websocket");
    let batch = embed_batch(&kb, "docs", vec![input(&text, "W", "w.txt")]);
    kb.ingest_embedded(batch);

    let qvec = fake_embedding(&text, 4);
    let results = kb.search("websocket", &qvec, 5);
    assert!(!results.is_empty());
    assert!(results[0].content.contains("websocket"));
    assert!(results[0].score >= kb.search.min_score);
}

#[test]
fn reset_all_empties_every_store() {
    let mut kb = Eywa::new(4);
    let batch = embed_batch(&kb, "docs", vec![input(&long_text("reset"), "R", "r.txt")]);
    kb.ingest_embedded(batch);
    kb.reset_all();
    assert_eq!(kb.db.chunks.len(), 0);
    assert_eq!(kb.content.count_documents(), 0);
    assert!(kb.bm25_index.search("reset", 10).is_empty());
}

#[test]
fn bm25_finds_keyword_and_respects_delete() {
    let mut idx = BM25Index::new();
    idx.index(ChunkInput {
        chunk_id: "c1".to_string(),
        source_id: "docs".to_string(),
        document_id: "d1".to_string(),
        content: "JWT authentication guide for tokens".to_string(),
    });
    idx.index(ChunkInput {
        chunk_id: "c2".to_string(),
        source_id: "docs".to_string(),
        document_id: "d2".to_string(),
        content: "general overview of the system".to_string(),
    });
    let hits = idx.search("JWT", 10);
    assert_eq!(hits.len(), 1);
    assert_eq!(hits[0].chunk_id, "c1");
    assert!(hits[0].score > 0);

    idx.delete_source("docs");
    assert!(idx.search("JWT", 10).is_empty());
}

#[test]
fn bm25_ranks_denser_matches_higher() {
    let mut idx = BM25Index::new();
    idx.index(ChunkInput {
        chunk_id: "dense".to_string(),
        source_id: "s".to_string(),
        document_id: "d1".to_string(),
        content: "rust rust rust".to_string(),
    });
    idx.index(ChunkInput {
        chunk_id: "sparse".to_string(),
        source_id: "s".to_string(),
        document_id: "d2".to_string(),
        content: "rust and many other unrelated words in this text".to_string(),
    });
    let hits = idx.search("rust", 10);
    assert_eq!(hits.len(), 2);
    assert_eq!(hits[0].chunk_id, "dense");
    assert!(hits[0].score >= hits[1].score);
}

#[test]
fn tokenizer_lowers_and_splits() {
    let toks = eywa::bm25::tokenize("Hello, World! x42");
    assert_eq!(toks, vec!["hello".to_string(), "world".to_string(), "x42".to_string()]);
}

#[test]
fn job_queue_tracks_documents_to_done() {
    let mut q = eywa::job::JobQueue::new();
    let job_id = q.queue_documents(
        "src",
        vec![input("one", "1", "1.txt"), input("two", "2", "2.txt")],
        "2024-01-01T00:00:00Z".to_string(),
    );
    let job = q.get_job(&job_id).unwrap();
    assert_eq!(job.total_docs, 2);
    assert_eq!(job.status, eywa::types::JobStatus::Pending);

    let d1 = q.get_next_pending().unwrap();
    assert_eq!(d1.status, eywa::types::DocStatus::Processing);
    q.mark_completed(&d1.id);

    let d2 = q.get_next_pending().unwrap();
    q.mark_failed(&d2.id, "boom".to_string());
    assert!(q.get_next_pending().is_none());

    let job = q.get_job(&job_id).unwrap();
    assert_eq!(job.completed_docs, 1);
    assert_eq!(job.failed_docs, 1);
    assert_eq!(job.status, eywa::types::JobStatus::Failed);
}

#[test]
fn job_queue_recovers_processing_documents() {
    let mut q = eywa::job::JobQueue::new();
    q.queue_documents("src", vec![input("one", "1", "1.txt")], "t".to_string());
    let d = q.get_next_pending().unwrap();
    assert_eq!(d.status, eywa::types::DocStatus::Processing);
    q.recover();
    let again = q.get_next_pending().unwrap();
    assert_eq!(again.id, d.id);
}

#[test]
fn utility_formatting_is_exact() {
    assert_eq!(eywa::utils::u64_dec(0), "0");
    assert_eq!(eywa::utils::u64_dec(12345), "12345");
    assert_eq!(eywa::utils::format_bytes(512), "512 B");
    assert_eq!(eywa::utils::format_bytes(2048), "2.0 KB");
    assert_eq!(eywa::utils::format_bytes(1536), "1.5 KB");
    assert_eq!(eywa::utils::format_bytes(5 * 1024 * 1024), "5.0 MB");
}

#[test]
fn html_title_extraction() {
    assert_eq!(
        eywa::utils::extract_title_from_html("<html><TITLE> Hi there </TITLE></html>"),
        Some("Hi there".to_string())
    );
    assert_eq!(eywa::utils::extract_title_from_html("<html><body>x</body></html>"), None);
    assert_eq!(eywa::utils::extract_title_from_html("<title>   </title>"), None);
}

#[test]
fn gpu_info_reports_cpu_only_build() {
    let info = eywa::utils::gpu_support_info();
    assert!(!info.any_gpu());
    assert_eq!(info.summary(), "None (CPU only)");
}

#[test]
fn similar_docs_skips_the_source_document() {
    let mut kb = Eywa::new(4);
    let t1 = long_text("alpha");
    let t2 = long_text("omega");
    let b = embed_batch(&kb, "docs", vec![input(&t1, "A", "a.txt"), input(&t2, "B", "b.txt")]);
    kb.ingest_embedded(b);
    let doc_id = kb.db.docs[0].id.clone();
    let doc_vec = fake_embedding(&t1, 4);
    let similar = kb.similar_docs(&doc_id, &doc_vec, 5);
    for s in &similar {
        assert_ne!(s.source_id, "");
        assert!(kb.db.chunks.iter().any(|c| c.record.id == s.id && c.record.document_id != doc_id));
    }
}

#[test]
fn supported_extensions_match_the_ingest_set() {
    for ext in ["md", "markdown", "txt", "pdf", "rs", "py", "json", "yaml", "yml", "toml", "fish"] {
        assert!(eywa::pipeline::is_supported_extension(ext));
    }
    for ext in ["exe", "png", "jpg", "mp4", "zip", ""] {
        assert!(!eywa::pipeline::is_supported_extension(ext));
    }
}

#[test]
fn embedding_batch_size_follows_the_device() {
    assert_eq!(eywa::pipeline::get_embedding_batch_size("CPU"), 32);
    assert_eq!(eywa::pipeline::get_embedding_batch_size("Metal (Apple GPU)"), 64);
}

#[test]
fn text_chunker_keeps_a_small_document_whole() {
    let chunker = eywa::chunking::text::TextChunker::with_sizes(100, 20);
    let doc = eywa::chunking::DocMetadata {
        document_id: "d".to_string(),
        source_id: "s".to_string(),
        file_path: Some("notes.txt".to_string()),
    };
    // many tiny paragraphs: none big enough alone, yet the document is kept
    let content = "one two three four five.\n\nsix seven eight nine ten.\n\neleven twelve thirteen fourteen fifteen sixteen seventeen.";
    let chunks = eywa::chunking::Chunker::chunk(&chunker, content, &doc);
    assert!(chunks.len() >= 1);
}

#[test]
fn html_title_takes_the_first_tag_pair() {
    assert_eq!(
        eywa::utils::extract_title_from_html("<title>One</title><title>Two</title>"),
        Some("One".to_string())
    );
    assert_eq!(eywa::utils::extract_title_from_html("x<title>no closing tag"), None);
}
