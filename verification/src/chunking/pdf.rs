//! Chunker for PDF-derived content. The pages of a PDF are extracted to
//! markdown before they reach the library, so this chunker hands the text to
//! the markdown chunker.

use super::markdown::{chunks_ok, MarkdownChunker};
use super::{Chunk, DocMetadata};
use crate::textutil::trim_spec;
use vstd::prelude::*;

verus! {

/// Chunker for text extracted from PDF documents.
pub struct PdfChunker {
    pub md_chunker: MarkdownChunker,
}

impl PdfChunker {
    /// A chunker delegating to a default markdown chunker.
    pub fn new() -> (r: Self)
        ensures
            r.md_chunker.target_size == super::TARGET_SIZE,
            r.md_chunker.overlap == super::OVERLAP,
    {
        PdfChunker { md_chunker: MarkdownChunker::new() }
    }

    /// Splits PDF-extracted markdown like the markdown chunker does.
    pub fn chunk_pdf(&self, content: &str, metadata: &DocMetadata) -> (chunks: Vec<Chunk>)
        requires
            content@.len() < 0x4000_0000,
        ensures
            trim_spec(content@).len() == 0 ==> chunks@.len() == 0,
            !crate::textutil::is_blank(content@) && crate::textutil::byte_len(content@)
                >= super::MIN_CHUNK as int ==> chunks@.len() >= 1,
            chunks_ok(content@, *metadata, chunks@),
    {
        self.md_chunker.chunk_markdown(content, metadata)
    }
}

} // verus!
