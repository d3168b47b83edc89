use eywa::db::{escape_sql, ChunkRecord, StoreError, VectorDB};

fn record(id: &str, doc: &str, src: &str, hash: &str) -> ChunkRecord {
    ChunkRecord {
        id: id.to_string(),
        document_id: doc.to_string(),
        source_id: src.to_string(),
        title: None,
        file_path: None,
        line_start: Some(1),
        line_end: Some(1),
        content_hash: hash.to_string(),
        section: None,
        subsection: None,
        hierarchy: Vec::new(),
        has_code: false,
    }
}

#[test]
fn test_escape_sql() {
    assert_eq!(escape_sql("normal"), "normal");
    assert_eq!(escape_sql("it's"), "it''s");
    assert_eq!(escape_sql("a'b'c"), "a''b''c");
    assert_eq!(escape_sql(""), "");
}

#[test]
fn test_escape_sql_no_quotes() {
    assert_eq!(escape_sql("hello world"), "hello world");
    assert_eq!(escape_sql("source-name_123"), "source-name_123");
}

#[test]
fn test_escape_sql_multiple_quotes() {
    assert_eq!(escape_sql("it's John's"), "it''s John''s");
}

#[test]
fn vector_index_rejects_wrong_dimension() {
    let mut db = VectorDB::new(3);
    let r = db.insert_chunks(vec![record("c1", "d1", "s1", "h1")], vec![vec![1, 2]]);
    assert!(matches!(r, Err(StoreError::InvalidVector)));
    assert_eq!(db.chunks.len(), 0);
}

#[test]
fn vector_index_rejects_mismatched_batch() {
    let mut db = VectorDB::new(3);
    let r = db.insert_chunks(vec![record("c1", "d1", "s1", "h1")], vec![]);
    assert!(matches!(r, Err(StoreError::MismatchedBatch)));
}

#[test]
fn vector_index_rejects_out_of_range_component() {
    let mut db = VectorDB::new(2);
    let r = db.insert_chunks(vec![record("c1", "d1", "s1", "h1")], vec![vec![2_000_000, 0]]);
    assert!(matches!(r, Err(StoreError::InvalidVector)));
}

#[test]
fn vector_index_skips_duplicate_hashes() {
    let mut db = VectorDB::new(2);
    let r1 = db.insert_chunks(
        vec![record("c1", "d1", "s1", "same-hash"), record("c2", "d1", "s1", "same-hash")],
        vec![vec![1_000_000, 0], vec![0, 1_000_000]],
    );
    assert!(r1.is_ok());
    assert_eq!(db.chunks.len(), 1);
    assert!(db.chunk_exists("same-hash"));
    assert!(!db.chunk_exists("other-hash"));
}

#[test]
fn vector_search_ranks_by_similarity() {
    let mut db = VectorDB::new(2);
    db.insert_chunks(
        vec![record("cx", "d1", "s1", "hx"), record("cy", "d1", "s1", "hy")],
        vec![vec![1_000_000, 0], vec![0, 1_000_000]],
    )
    .unwrap();
    let hits = db.search(&vec![1_000_000, 0], 10);
    assert_eq!(hits.len(), 2);
    assert_eq!(hits[0].id, "cx");
    assert_eq!(hits[0].score, 1_000_000);
    assert_eq!(hits[1].score, 0);
}

#[test]
fn delete_source_empties_the_source() {
    let mut db = VectorDB::new(2);
    db.insert_document(eywa::types::DocumentRecord {
        id: "d1".to_string(),
        source_id: "a".to_string(),
        title: "T".to_string(),
        file_path: None,
        created_at: "2024-01-01T00:00:00Z".to_string(),
        chunk_count: 1,
        content_length: 10,
    });
    db.insert_chunks(vec![record("c1", "d1", "a", "h1")], vec![vec![0, 0]]).unwrap();
    db.delete_source("a");
    assert_eq!(db.docs.len(), 0);
    assert_eq!(db.chunks.len(), 0);
    assert!(db.list_sources().is_empty());
}

#[test]
fn list_sources_aggregates_per_source() {
    let mut db = VectorDB::new(2);
    for (id, src, count, when) in [
        ("d1", "a", 2, "2024-01-01T00:00:00Z"),
        ("d2", "a", 3, "2024-02-01T00:00:00Z"),
        ("d3", "b", 1, "2024-03-01T00:00:00Z"),
    ] {
        db.insert_document(eywa::types::DocumentRecord {
            id: id.to_string(),
            source_id: src.to_string(),
            title: "T".to_string(),
            file_path: None,
            created_at: when.to_string(),
            chunk_count: count,
            content_length: 10,
        });
    }
    let sources = db.list_sources();
    assert_eq!(sources.len(), 2);
    let a = sources.iter().find(|s| s.id == "a").unwrap();
    assert_eq!(a.doc_count, 2);
    assert_eq!(a.chunk_count, 5);
    assert_eq!(a.last_indexed, Some("2024-02-01T00:00:00Z".to_string()));
}

#[test]
fn content_store_round_trip() {
    let mut store = eywa::content::ContentStore::new();
    store.insert_document(eywa::content::DocumentRow {
        id: "d1".to_string(),
        source_id: "a".to_string(),
        title: "T".to_string(),
        file_path: None,
        content: "body text".to_string(),
        created_at: "2024-01-01T00:00:00Z".to_string(),
    });
    store.insert_chunks(vec![eywa::content::ChunkRow {
        id: "c1".to_string(),
        document_id: "d1".to_string(),
        content: "chunk text".to_string(),
    }]);
    assert_eq!(store.get_document("d1"), Some("body text".to_string()));
    assert_eq!(store.get_document("dx"), None);
    assert_eq!(store.count_documents(), 1);
    let got = store.get_chunks(&vec!["c1".to_string(), "missing".to_string()]);
    assert_eq!(got.len(), 1);
    assert_eq!(got[0].1, "chunk text");
    store.delete_document("d1");
    assert_eq!(store.count_documents(), 0);
    assert_eq!(store.chunks.len(), 0);
}

#[test]
fn list_documents_returns_first_matching_rows_in_order() {
    let mut db = VectorDB::new(2);
    for (id, src) in [("d1", "a"), ("d2", "b"), ("d3", "a"), ("d4", "a")] {
        db.insert_document(eywa::types::DocumentRecord {
            id: id.to_string(),
            source_id: src.to_string(),
            title: "T".to_string(),
            file_path: None,
            created_at: "2024-01-01T00:00:00Z".to_string(),
            chunk_count: 1,
            content_length: 10,
        });
    }
    let all = db.list_documents("a", None);
    assert_eq!(all.len(), 3);
    assert_eq!(all[0].id, "d1");
    assert_eq!(all[1].id, "d3");
    assert_eq!(all[2].id, "d4");
    let limited = db.list_documents("a", Some(2));
    assert_eq!(limited.len(), 2);
    assert_eq!(limited[0].id, "d1");
    assert_eq!(limited[1].id, "d3");
    assert!(db.list_documents("missing", None).is_empty());
}

#[test]
fn delete_source_by_source_id_cascades_to_exactly_its_chunks() {
    let mut store = eywa::content::ContentStore::new();
    for (doc, src) in [("d1", "keep"), ("d2", "drop"), ("d3", "drop")] {
        store.insert_document(eywa::content::DocumentRow {
            id: doc.to_string(),
            source_id: src.to_string(),
            title: "T".to_string(),
            file_path: None,
            content: "body".to_string(),
            created_at: "2024-01-01T00:00:00Z".to_string(),
        });
    }
    store.insert_chunks(vec![
        eywa::content::ChunkRow {
            id: "c1".to_string(),
            document_id: "d1".to_string(),
            content: "one".to_string(),
        },
        eywa::content::ChunkRow {
            id: "c2".to_string(),
            document_id: "d2".to_string(),
            content: "two".to_string(),
        },
        eywa::content::ChunkRow {
            id: "c3".to_string(),
            document_id: "d3".to_string(),
            content: "three".to_string(),
        },
    ]);
    store.delete_source_by_source_id("drop");
    assert_eq!(store.docs.len(), 1);
    assert_eq!(store.docs[0].id, "d1");
    assert_eq!(store.chunks.len(), 1);
    assert_eq!(store.chunks[0].id, "c1");
}
