use eywa::config::{Config, EmbeddingModel, EmbeddingModelConfig, RerankerModelConfig};

#[test]
fn test_default_config() {
    let config = Config::default();
    assert_eq!(config.embedding_model.id, "all-MiniLM-L12-v2");
    assert_eq!(config.reranker_model.id, "ms-marco-MiniLM-L-6-v2");
    assert_eq!(config.version, 2);
}

#[test]
fn test_curated_models() {
    let embedders = EmbeddingModelConfig::curated_models();
    assert_eq!(embedders.len(), 5);

    let rerankers = RerankerModelConfig::curated_models();
    assert_eq!(rerankers.len(), 4);
}

#[test]
fn test_custom_model() {
    let model = EmbeddingModelConfig::custom("sentence-transformers/all-mpnet-base-v2", 768);
    assert_eq!(model.repo_id, "sentence-transformers/all-mpnet-base-v2");
    assert_eq!(model.dimensions, 768);
    assert!(!model.curated);
}

#[test]
fn test_find_curated() {
    let model = EmbeddingModelConfig::find_curated("bge-base-en-v1.5");
    assert!(model.is_some());
    assert_eq!(model.unwrap().dimensions, 768);

    let not_found = EmbeddingModelConfig::find_curated("nonexistent");
    assert!(not_found.is_none());
}

#[test]
fn test_legacy_conversion() {
    let legacy = EmbeddingModel::BgeBaseEnV15;
    let config = legacy.to_config();
    assert_eq!(config.id, "bge-base-en-v1.5");
    assert_eq!(config.dimensions, 768);
}

#[test]
fn custom_model_is_named_after_repo_tail() {
    let model = RerankerModelConfig::custom("acme/tiny-ranker");
    assert_eq!(model.name, "tiny-ranker");
    assert_eq!(model.id, "custom:acme/tiny-ranker");
    assert_eq!(model.size_mb, 0);
}
