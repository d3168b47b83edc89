use eywa::score::{
    convex_fusion, normalize_scores, sort_pairs_by_score_desc, SCORE_SCALE, SCORE_THRESHOLD,
};

fn pairs(v: &[(&str, i64)]) -> Vec<(String, i64)> {
    v.iter().map(|(id, s)| (id.to_string(), *s)).collect()
}

fn score_of<'a>(r: &'a [(String, i64)], id: &str) -> i64 {
    r.iter().find(|(i, _)| i == id).unwrap().1
}

#[test]
fn normalize_scores_basic() {
    // raw scores 0.2, 0.5, 0.8 in millionths
    let scores = pairs(&[("a", 200_000), ("b", 500_000), ("c", 800_000)]);
    let normalized = normalize_scores(&scores);

    assert_eq!(normalized.len(), 3);
    assert_eq!(score_of(&normalized, "a"), 0);
    assert_eq!(score_of(&normalized, "b"), 500_000);
    assert_eq!(score_of(&normalized, "c"), 1_000_000);
}

#[test]
fn normalize_scores_empty() {
    let scores: Vec<(String, i64)> = Vec::new();
    let normalized = normalize_scores(&scores);
    assert!(normalized.is_empty());
}

#[test]
fn normalize_scores_single_item() {
    let scores = pairs(&[("a", 500_000)]);
    let normalized = normalize_scores(&scores);

    assert_eq!(normalized.len(), 1);
    assert_eq!(normalized[0].1, SCORE_SCALE);
}

#[test]
fn normalize_scores_all_same() {
    let scores = pairs(&[("a", 500_000), ("b", 500_000), ("c", 500_000)]);
    let normalized = normalize_scores(&scores);

    assert_eq!(normalized.len(), 3);
    for (_, score) in &normalized {
        assert_eq!(*score, SCORE_SCALE);
    }
}

#[test]
fn normalize_scores_preserves_order() {
    let scores = pairs(&[("first", 100_000), ("second", 900_000)]);
    let normalized = normalize_scores(&scores);

    assert_eq!(normalized[0].0, "first");
    assert_eq!(normalized[1].0, "second");
}

#[test]
fn normalize_scores_negative_values() {
    let scores = pairs(&[("a", -1_000_000), ("b", 0), ("c", 1_000_000)]);
    let normalized = normalize_scores(&scores);

    assert_eq!(score_of(&normalized, "a"), 0);
    assert_eq!(score_of(&normalized, "b"), 500_000);
    assert_eq!(score_of(&normalized, "c"), 1_000_000);
}

#[test]
fn convex_fusion_weights_applied() {
    let vector_results = pairs(&[("chunk1", 1_000_000)]);
    let bm25_results = pairs(&[("chunk1", 1_000_000)]);

    let fused = convex_fusion(&vector_results, &bm25_results);

    assert_eq!(fused.len(), 1);
    // both normalize to 1.0, so 0.8 + 0.2 = 1.0
    assert_eq!(fused[0].1, 1_000_000);
}

#[test]
fn convex_fusion_overlapping_ids() {
    let vector_results = pairs(&[("shared", 800_000), ("vec_only", 400_000)]);
    let bm25_results = pairs(&[("shared", 900_000), ("bm25_only", 500_000)]);

    let fused = convex_fusion(&vector_results, &bm25_results);

    assert_eq!(fused.len(), 3);
    assert_eq!(score_of(&fused, "shared"), 1_000_000);
    assert_eq!(score_of(&fused, "vec_only"), 0);
    assert_eq!(score_of(&fused, "bm25_only"), 0);
}

#[test]
fn convex_fusion_disjoint_ids() {
    let vector_results = pairs(&[("vec1", 900_000)]);
    let bm25_results = pairs(&[("bm25_1", 700_000)]);

    let fused = convex_fusion(&vector_results, &bm25_results);

    assert_eq!(fused.len(), 2);
    assert_eq!(score_of(&fused, "vec1"), 800_000);
    assert_eq!(score_of(&fused, "bm25_1"), 200_000);
}

#[test]
fn convex_fusion_sorted_descending() {
    let vector_results = pairs(&[("low", 200_000), ("high", 900_000)]);
    let bm25_results: Vec<(String, i64)> = Vec::new();

    let fused = convex_fusion(&vector_results, &bm25_results);

    assert_eq!(fused[0].0, "high");
    assert_eq!(fused[1].0, "low");
}

#[test]
fn convex_fusion_empty_vector_side() {
    let vector_results: Vec<(String, i64)> = Vec::new();
    let bm25_results = pairs(&[("bm25", 800_000)]);

    let fused = convex_fusion(&vector_results, &bm25_results);

    assert_eq!(fused.len(), 1);
    assert_eq!(fused[0].1, 200_000);
}

#[test]
fn convex_fusion_both_empty() {
    let fused = convex_fusion(&Vec::new(), &Vec::new());
    assert!(fused.is_empty());
}

#[test]
fn sort_is_descending_and_keeps_entries() {
    let mut v = pairs(&[("a", 1), ("b", 5), ("c", 3)]);
    sort_pairs_by_score_desc(&mut v);
    assert_eq!(v.len(), 3);
    assert_eq!(v[0].1, 5);
    assert_eq!(v[1].1, 3);
    assert_eq!(v[2].1, 1);
}

#[test]
fn filter_threshold_drops_low_scores() {
    // a result list whose best fused score is 0.28 filters to nothing
    let engine = eywa::search::SearchEngine::new();
    assert_eq!(engine.min_score, SCORE_THRESHOLD);
    let results = vec![eywa::types::SearchResult {
        id: "c".to_string(),
        source_id: "s".to_string(),
        title: None,
        content: "text".to_string(),
        file_path: None,
        line_start: None,
        score: 280_000,
    }];
    let filtered = engine.filter_results(results);
    assert!(filtered.is_empty());
}

#[test]
fn keyword_rerank_prefers_matching_text() {
    let engine = eywa::search::SearchEngine::new();
    let make = |id: &str, content: &str, score: i64| eywa::types::SearchResult {
        id: id.to_string(),
        source_id: "s".to_string(),
        title: None,
        content: content.to_string(),
        file_path: None,
        line_start: None,
        score,
    };
    let results = vec![
        make("plain", "This is about dogs and cats", 500_000),
        make("match", "Rust programming language is great", 500_000),
    ];
    let reranked = engine.rerank_with_keywords(results, "rust programming");
    assert_eq!(reranked[0].id, "match");
    assert!(reranked[0].score > reranked[1].score);
}

#[test]
fn rerank_with_scores_attaches_and_resorts() {
    let engine = eywa::search::SearchEngine::new();
    let mk = |id: &str, score: i64| eywa::types::SearchResult {
        id: id.to_string(),
        source_id: "s".to_string(),
        title: None,
        content: "text".to_string(),
        file_path: None,
        line_start: None,
        score,
    };
    let results = vec![mk("low", 900_000), mk("high", 100_000)];
    let scores: Vec<i64> = vec![200_000, 700_000];
    let reranked = engine.rerank_with_scores(results, &scores);
    assert_eq!(reranked.len(), 2);
    assert_eq!(reranked[0].id, "high");
    assert_eq!(reranked[0].score, 700_000);
    assert_eq!(reranked[1].id, "low");
    assert_eq!(reranked[1].score, 200_000);
}
