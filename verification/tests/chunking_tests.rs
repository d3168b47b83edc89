use eywa::chunking::fallback::FallbackChunker;
use eywa::chunking::markdown::MarkdownChunker;
use eywa::chunking::pdf::PdfChunker;
use eywa::chunking::text::TextChunker;
use eywa::chunking::{ChunkMetadata, Chunker, ChunkerRegistry, DocMetadata, MIN_CHUNK};

fn test_doc() -> DocMetadata {
    DocMetadata {
        document_id: "doc1".to_string(),
        source_id: "src1".to_string(),
        file_path: Some("guide.md".to_string()),
    }
}

#[test]
fn markdown_test_empty_content() {
    let chunker = MarkdownChunker::new();
    let chunks = chunker.chunk("", &test_doc());
    assert!(chunks.is_empty());
}

#[test]
fn test_simple_markdown() {
    let chunker = MarkdownChunker::new();
    let content = "# My Document\n\nThis is the introduction. It has enough content to meet minimum chunk requirements.\n\n## Getting Started\n\nHere's how to get started with the project. Follow these steps carefully.\n\n### Installation\n\nRun the following command to install.";

    let chunks = chunker.chunk(content, &test_doc());
    assert!(!chunks.is_empty());

    if chunks.len() > 1 {
        let last_chunk = chunks.last().unwrap();
        assert!(last_chunk.metadata.hierarchy.contains(&"My Document".to_string()));
    }
}

#[test]
fn test_code_block_detection() {
    let chunker = MarkdownChunker::new();
    let content = "# Code Example\n\nHere's some code:\n\n```rust\nfn main() {\n    println!(\"Hello, world!\");\n}\n```\n\nThat was the code.";

    let chunks = chunker.chunk(content, &test_doc());

    if !chunks.is_empty() {
        assert!(chunks[0].metadata.has_code, "Should detect code block");
    }
}

#[test]
fn test_header_hierarchy() {
    let chunker = MarkdownChunker::with_sizes(200, 50);
    let content = "# Title\n\nIntroduction text here.\n\n## Section One\n\nContent for section one.\n\n### Subsection A\n\nDetails for subsection A.\n\n## Section Two\n\nContent for section two.";

    let chunks = chunker.chunk(content, &test_doc());

    for chunk in &chunks {
        if chunk.metadata.subsection.is_some() {
            assert_eq!(chunk.metadata.title, Some("Title".to_string()));
            assert_eq!(chunk.metadata.section, Some("Section One".to_string()));
            assert_eq!(chunk.metadata.subsection, Some("Subsection A".to_string()));
            break;
        }
    }
}

#[test]
fn test_code_blocks_kept_intact() {
    let chunker = MarkdownChunker::with_sizes(100, 20);
    let content = "# Example\n\n```python\ndef long_function():\n    # This is a long function\n    x = 1\n    y = 2\n    z = 3\n    return x + y + z\n```";

    let chunks = chunker.chunk(content, &test_doc());

    for chunk in &chunks {
        let backtick_count = chunk.content.matches("```").count();
        assert_ne!(backtick_count, 1, "Code block was split: {:?}", chunk.content);
    }
}

#[test]
fn test_chunk_metadata_hierarchy() {
    let doc = DocMetadata {
        document_id: "doc1".to_string(),
        source_id: "src1".to_string(),
        file_path: Some("test.md".to_string()),
    };

    let meta = ChunkMetadata::new(&doc)
        .with_title(Some("My Doc".to_string()))
        .with_section(Some("Getting Started".to_string()))
        .with_subsection(Some("Installation".to_string()));

    assert_eq!(meta.title, Some("My Doc".to_string()));
    assert_eq!(meta.section, Some("Getting Started".to_string()));
    assert_eq!(meta.subsection, Some("Installation".to_string()));
    assert_eq!(
        meta.hierarchy,
        vec!["My Doc".to_string(), "Getting Started".to_string(), "Installation".to_string()]
    );
}

#[test]
fn test_registry_extension_matching() {
    let registry = ChunkerRegistry::new();
    let doc = DocMetadata {
        document_id: "doc1".to_string(),
        source_id: "src1".to_string(),
        file_path: Some("test.md".to_string()),
    };

    let content = format!("# Hello\n\n{}", "This is test content. ".repeat(10));
    let chunks = registry.chunk(&content, Some("test.md"), &doc);
    assert!(!chunks.is_empty());
}

#[test]
fn test_pdf_chunker_delegates_to_markdown() {
    let chunker = PdfChunker::new();
    let content = "# Document Title\n\nSome extracted PDF content here.";

    let chunks = chunker.chunk(content, &test_doc());

    assert!(!chunks.is_empty() || content.len() < MIN_CHUNK);
}

#[test]
fn test_supported_extensions() {
    let chunker = PdfChunker::new();
    assert_eq!(chunker.supported_extensions(), vec!["pdf"]);
}

#[test]
fn text_test_empty_content() {
    let chunker = TextChunker::new();
    let doc = DocMetadata {
        document_id: "doc1".to_string(),
        source_id: "src1".to_string(),
        file_path: Some("readme.txt".to_string()),
    };
    let chunks = chunker.chunk("", &doc);
    assert!(chunks.is_empty());
}

#[test]
fn test_single_paragraph() {
    let chunker = TextChunker::new();
    let doc = DocMetadata {
        document_id: "doc1".to_string(),
        source_id: "src1".to_string(),
        file_path: Some("readme.txt".to_string()),
    };
    let content = "This is a single paragraph with enough content to meet the minimum chunk size requirement for our chunking algorithm.";
    let chunks = chunker.chunk(content, &doc);

    assert_eq!(chunks.len(), 1);
    assert_eq!(chunks[0].metadata.title, Some("readme.txt".to_string()));
}

#[test]
fn test_multiple_paragraphs() {
    let chunker = TextChunker::with_sizes(200, 50);
    let doc = DocMetadata {
        document_id: "doc1".to_string(),
        source_id: "src1".to_string(),
        file_path: Some("readme.txt".to_string()),
    };
    let content = "First paragraph with some content here.\n\nSecond paragraph with more content.\n\nThird paragraph with even more content.\n\nFourth paragraph to add more text.\n\nFifth paragraph for good measure.";

    let chunks = chunker.chunk(content, &doc);
    assert!(!chunks.is_empty());
}

#[test]
fn test_paragraph_boundaries_preserved() {
    let chunker = TextChunker::new();
    let doc = DocMetadata {
        document_id: "doc1".to_string(),
        source_id: "src1".to_string(),
        file_path: Some("readme.txt".to_string()),
    };
    let content = "Short para 1.\n\nThis is a longer paragraph that should be kept together because it represents a complete thought.\n\nAnother short one.";

    let chunks = chunker.chunk(content, &doc);

    for chunk in chunks {
        let trimmed = chunk.content.trim();
        assert!(
            trimmed.ends_with('.') || trimmed.ends_with('!') || trimmed.ends_with('?'),
            "Chunk should end at sentence boundary: {:?}",
            trimmed.chars().rev().take(20).collect::<String>()
        );
    }
}

#[test]
fn fenced_code_stays_even_across_sections() {
    let chunker = MarkdownChunker::new();
    let content = "# X\n\n```py\nx = 1\n```";
    let chunks = chunker.chunk(content, &test_doc());
    for chunk in &chunks {
        assert_eq!(chunk.content.matches("```").count() % 2, 0);
    }
}

#[test]
fn fallback_window_splits_unknown_content() {
    let chunker = FallbackChunker::new();
    let doc = DocMetadata {
        document_id: "doc1".to_string(),
        source_id: "src1".to_string(),
        file_path: Some("blob.bin".to_string()),
    };
    let content = "abcdefghij".repeat(200);
    let chunks = chunker.chunk(&content, &doc);
    assert!(chunks.len() >= 2);
    for c in &chunks {
        assert!(c.content.chars().count() >= 100);
    }
}

#[test]
fn chunk_hash_is_md5_of_content() {
    let meta = ChunkMetadata::new(&test_doc());
    let chunk = eywa::chunking::create_chunk("hello".to_string(), meta);
    assert_eq!(chunk.metadata.content_hash, "5d41402abc4b2a76b9719d911017c592");
    assert_eq!(chunk.id.len(), 36);
}

#[test]
fn registry_extension_is_lowercased() {
    assert_eq!(eywa::chunking::get_extension("dir/NOTES.MD"), Some("md".to_string()));
    assert_eq!(eywa::chunking::get_extension("archive.tar.gz"), Some("gz".to_string()));
    assert_eq!(eywa::chunking::get_extension("no_extension"), None);
    assert_eq!(eywa::chunking::get_extension(".hidden"), None);
}
