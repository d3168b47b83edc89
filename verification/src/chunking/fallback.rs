//! Sliding-window chunker for content of unknown type: character windows of
//! the target size, with a fixed overlap, always cut at code-point
//! boundaries.

use super::{create_chunk, opt_str_eq, Chunk, ChunkMetadata, DocMetadata, MIN_CHUNK, OVERLAP, TARGET_SIZE};
use crate::chunking::markdown::hierarchy_matches;
use crate::outside::md5_hex_of;
use crate::textutil::{is_blank, lemma_blank_trim, range_is_blank, to_chars, trim_spec};
use vstd::prelude::*;
use vstd::string::{StrSliceExecFns, StringExecFns};

verus! {

/// Everything the sliding-window chunker guarantees of one emitted chunk.
pub open spec fn window_chunk_ok(doc: Seq<char>, meta: DocMetadata, c: Chunk) -> bool {
    &&& c.metadata.document_id@ == meta.document_id@
    &&& c.metadata.source_id@ == meta.source_id@
    &&& opt_str_eq(c.metadata.file_path, meta.file_path)
    &&& c.id@.len() == 36
    &&& c.metadata.content_hash@ == md5_hex_of(c.content@)
    &&& c.metadata.title is None
    &&& c.metadata.section is None
    &&& c.metadata.subsection is None
    &&& hierarchy_matches(c.metadata)
    &&& c.metadata.has_code == false
    &&& c.content@.len() >= MIN_CHUNK as int
    &&& exists|i: int, j: int|
        0 <= i <= j <= doc.len() && c.content@ == #[trigger] doc.subrange(i, j)
}

pub open spec fn window_chunks_ok(doc: Seq<char>, meta: DocMetadata, chunks: Seq<Chunk>) -> bool {
    forall|i: int| 0 <= i < chunks.len() ==> #[trigger] window_chunk_ok(doc, meta, chunks[i])
}

/// Character-window chunker used when no format-specific one applies.
pub struct FallbackChunker {
    pub target_size: usize,
    pub overlap: usize,
}

impl FallbackChunker {
    /// A chunker with the store-wide default sizes.
    pub fn new() -> (r: Self)
        ensures
            r.target_size == TARGET_SIZE,
            r.overlap == OVERLAP,
    {
        FallbackChunker { target_size: TARGET_SIZE, overlap: OVERLAP }
    }

    /// Splits content into character windows of the target size, each window
    /// overlapping the last by the configured overlap. Blank content yields
    /// no chunks; windows shorter than `MIN_CHUNK` characters are dropped,
    /// except that a document that would otherwise produce no chunks and
    /// meets `MIN_CHUNK` is emitted whole.
    pub fn chunk_sliding(&self, content: &str, metadata: &DocMetadata) -> (chunks: Vec<Chunk>)
        requires
            content@.len() < 0x4000_0000,
        ensures
            trim_spec(content@).len() == 0 ==> chunks@.len() == 0,
            !is_blank(content@) && content@.len() >= MIN_CHUNK ==> chunks@.len() >= 1,
            window_chunks_ok(content@, *metadata, chunks@),
    {
        let v = to_chars(content);
        let n = v.len();
        let mut chunks: Vec<Chunk> = Vec::new();
        if range_is_blank(&v, 0, n) {
            proof {
                assert(v@.subrange(0, n as int) =~= content@);
                lemma_blank_trim(content@);
            }
            return chunks;
        }
        proof {
            assert(v@.subrange(0, n as int) =~= content@);
            crate::chunking::markdown::lemma_trim_spec_nonblank(content@);
        }
        let tgt: usize = if self.target_size > 0 {
            self.target_size
        } else {
            1
        };
        let step: usize = if self.overlap < tgt {
            tgt - self.overlap
        } else {
            1
        };
        let mut i: usize = 0;
        while i < n
            invariant
                0 <= i,
                n == v@.len(),
                n == content@.len(),
                v@ == content@,
                step >= 1,
                tgt >= 1,
                window_chunks_ok(content@, *metadata, chunks@),
            decreases n - i,
        {
            let e = if n - i > tgt {
                i + tgt
            } else {
                n
            };
            if e - i >= MIN_CHUNK {
                let c = emit_window(content, i, e, metadata);
                chunks.push(c);
            }
            if n - i > step {
                i = i + step;
            } else {
                i = n;
            }
        }
        if chunks.len() == 0 && n >= MIN_CHUNK {
            let c = emit_window(content, 0, n, metadata);
            chunks.push(c);
        }
        chunks
    }
}

/// Emits one window `content[from..to)`.
fn emit_window(content: &str, from: usize, to: usize, meta: &DocMetadata) -> (c: Chunk)
    requires
        0 <= from <= to <= content@.len(),
        to - from >= MIN_CHUNK,
    ensures
        window_chunk_ok(content@, *meta, c),
{
    let text = String::from_str(content.substring_char(from, to));
    let md = ChunkMetadata::new(meta);
    let c = create_chunk(text, md);
    proof {
        assert(c.content@ == content@.subrange(from as int, to as int));
        assert(hierarchy_matches(c.metadata)) by {
            assert(c.metadata.hierarchy@.map_values(|s: String| s@)
                =~= crate::chunking::markdown::opt_view(c.metadata.title)
                + crate::chunking::markdown::opt_view(c.metadata.section)
                + crate::chunking::markdown::opt_view(c.metadata.subsection));
        }
    }
    c
}

} // verus!
