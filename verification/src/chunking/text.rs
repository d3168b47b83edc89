//! Paragraph-based chunker for plain text.
//!
//! Paragraphs are separated by empty lines; each paragraph is trimmed, empty
//! ones are dropped, and paragraphs are accumulated into a chunk until adding
//! the next one would pass the target size.

use super::{
    clone_opt_string, create_chunk, opt_str_eq, Chunk, ChunkMetadata, DocMetadata, MIN_CHUNK,
    OVERLAP, TARGET_SIZE,
};
use crate::chunking::markdown::{byte_prefix_sums, hierarchy_matches, psum_ok};
use crate::outside::md5_hex_of;
use crate::textutil::{
    byte_len, is_blank, lemma_blank_trim, lemma_byte_len_bounds, lemma_byte_len_subrange,
    line_spans, lines_of, range_is_blank, spans_wf, to_chars, trim_bounds, trim_spec, LineSpan,
};
use vstd::prelude::*;
use vstd::string::{StrSliceExecFns, StringExecFns};

verus! {

/// Everything the text chunker guarantees of one emitted chunk.
pub open spec fn text_chunk_ok(doc: Seq<char>, meta: DocMetadata, c: Chunk) -> bool {
    &&& c.metadata.document_id@ == meta.document_id@
    &&& c.metadata.source_id@ == meta.source_id@
    &&& opt_str_eq(c.metadata.file_path, meta.file_path)
    &&& title_is_file_name(meta, c.metadata.title)
    &&& c.id@.len() == 36
    &&& c.metadata.content_hash@ == md5_hex_of(c.content@)
    &&& c.metadata.section is None
    &&& c.metadata.subsection is None
    &&& hierarchy_matches(c.metadata)
    &&& c.metadata.has_code == false
    &&& byte_len(c.content@) >= MIN_CHUNK as int
    &&& 1 <= c.metadata.line_start <= c.metadata.line_end
    &&& exists|i: int, j: int|
        0 <= i <= j <= doc.len() && c.content@ == #[trigger] doc.subrange(i, j)
}

pub open spec fn text_chunks_ok(doc: Seq<char>, meta: DocMetadata, chunks: Seq<Chunk>) -> bool {
    forall|i: int| 0 <= i < chunks.len() ==> #[trigger] text_chunk_ok(doc, meta, chunks[i])
}

/// The chunks cover spans of the document that appear in order and do not
/// overlap: each chunk's text is a span, and each span ends no later than
/// the next one begins.
pub open spec fn text_spans_ok(doc: Seq<char>, chunks: Seq<Chunk>, sp: Seq<(int, int)>) -> bool {
    &&& sp.len() == chunks.len()
    &&& forall|m: int|
        0 <= m < sp.len() ==> ({
            &&& 0 <= (#[trigger] sp[m]).0 <= sp[m].1 <= doc.len()
            &&& chunks[m].content@ == doc.subrange(sp[m].0, sp[m].1)
        })
    &&& forall|m: int| 0 <= m < sp.len() - 1 ==> (#[trigger] sp[m]).1 <= sp[m + 1].0
}

/// The whole-document fallback is exact. The output either is an accumulated
/// result (every chunk sound, none required), or — when accumulation emitted
/// nothing although the document is non-blank and at least the minimum size —
/// it is exactly one chunk holding the full document.
pub open spec fn text_fallback_ok(doc: Seq<char>, meta: DocMetadata, chunks: Seq<Chunk>) -> bool {
    exists|accumulated: Seq<Chunk>|
        #[trigger] text_chunks_ok(doc, meta, accumulated) && (if accumulated.len() == 0
            && !is_blank(doc) && byte_len(doc) >= MIN_CHUNK as int {
            chunks.len() == 1 && chunks[0].content@ == doc
        } else {
            chunks == accumulated
        })
}

/// Where the text still to be scanned begins: the start of line `li`, or the
/// end of the text once every line is done.
pub open spec fn line_bound(s: Seq<char>, spans: Seq<LineSpan>, li: int) -> int {
    if li < spans.len() {
        spans[li].start as int
    } else {
        s.len() as int
    }
}

/// Just the bounds and ordering part of the line-span structure.
pub open spec fn spans_in_range(s: Seq<char>, spans: Seq<LineSpan>) -> bool {
    &&& forall|k: int|
        0 <= k < spans.len() ==> (#[trigger] spans[k]).start <= spans[k].end <= spans[k].next
            <= s.len()
    &&& forall|j: int, k: int|
        0 <= j <= k < spans.len() ==> (#[trigger] spans[j]).start <= (#[trigger] spans[k]).start
}

/// The file-name part of a path: what follows the last `/`, or the whole
/// path; nothing when that is empty.
pub open spec fn file_name_spec(path: Seq<char>) -> Option<Seq<char>> {
    let name = path.skip(crate::chunking::rfind(path, '/') + 1);
    if name.len() == 0 {
        Option::None
    } else {
        Option::Some(name)
    }
}

/// A chunk title is the file name of the document's path (or absent when the
/// path is absent or ends in a separator).
pub open spec fn title_is_file_name(meta: DocMetadata, title: Option<String>) -> bool {
    match meta.file_path {
        Option::Some(p) => match (title, file_name_spec(p@)) {
            (Option::Some(t), Option::Some(e)) => t@ == e,
            (Option::None, Option::None) => true,
            _ => false,
        },
        Option::None => title is None,
    }
}

/// Computes the file-name part of a path.
pub fn file_name_of(path: &str) -> (r: Option<String>)
    ensures
        match (r, file_name_spec(path@)) {
            (Option::Some(s), Option::Some(e)) => s@ == e,
            (Option::None, Option::None) => true,
            _ => false,
        },
{
    let v = to_chars(path);
    let n = v.len();
    let mut cut: usize = 0;
    let mut i: usize = 0;
    while i < n
        invariant
            0 <= cut <= i <= n,
            n == v@.len(),
            cut >= 1 ==> v@[cut - 1] == '/',
            forall|j: int| cut <= j < i ==> #[trigger] v@[j] != '/',
            cut == 0 ==> forall|j: int| 0 <= j < i ==> #[trigger] v@[j] != '/',
        decreases n - i,
    {
        if v[i] == '/' {
            cut = i + 1;
        }
        i = i + 1;
    }
    proof {
        crate::chunking::lemma_rfind_is(v@, '/', cut - 1);
        assert(path@.skip(cut as int) =~= path@.subrange(cut as int, n as int));
    }
    if cut == n {
        Option::None
    } else {
        Option::Some(String::from_str(path.substring_char(cut, n)))
    }
}

/// Paragraph-based chunker for plain text.
pub struct TextChunker {
    pub target_size: usize,
    pub overlap: usize,
}

/// One trimmed paragraph: its character range and its line range.
struct Paragraph {
    from: usize,
    to: usize,
    line_a: usize,
    line_b: usize,
}

impl TextChunker {
    /// A chunker with the store-wide default sizes.
    pub fn new() -> (r: Self)
        ensures
            r.target_size == TARGET_SIZE,
            r.overlap == OVERLAP,
    {
        TextChunker { target_size: TARGET_SIZE, overlap: OVERLAP }
    }

    /// A chunker with explicit sizes.
    pub fn with_sizes(target_size: usize, overlap: usize) -> (r: Self)
        ensures
            r.target_size == target_size,
            r.overlap == overlap,
    {
        TextChunker { target_size, overlap }
    }

    /// Splits plain text into paragraph-aligned chunks. Blank content yields
    /// no chunks; every chunk is a span of the text of at least `MIN_CHUNK`
    /// bytes, titled with the file name. A document of at least `MIN_CHUNK`
    /// bytes that would otherwise emit nothing is emitted as one whole
    /// chunk.
    #[verifier::rlimit(100)]
    #[verifier::spinoff_prover]
    pub fn chunk_text(&self, content: &str, metadata: &DocMetadata) -> (chunks: Vec<Chunk>)
        requires
            content@.len() < 0x4000_0000,
        ensures
            trim_spec(content@).len() == 0 ==> chunks@.len() == 0,
            !is_blank(content@) && byte_len(content@) >= MIN_CHUNK as int ==> chunks@.len() >= 1,
            text_chunks_ok(content@, *metadata, chunks@),
            exists|sp: Seq<(int, int)>| text_spans_ok(content@, chunks@, sp),
            text_fallback_ok(content@, *metadata, chunks@),
    {
        let v = to_chars(content);
        let n = v.len();
        let mut chunks: Vec<Chunk> = Vec::new();
        if range_is_blank(&v, 0, n) {
            proof {
                assert(v@.subrange(0, n as int) =~= content@);
                lemma_blank_trim(content@);
                assert(text_spans_ok(content@, chunks@, Seq::<(int, int)>::empty()));
                assert(text_chunks_ok(content@, *metadata, chunks@));
                assert(text_fallback_ok(content@, *metadata, chunks@));
            }
            return chunks;
        }
        proof {
            assert(v@.subrange(0, n as int) =~= content@);
            crate::chunking::markdown::lemma_trim_spec_nonblank(content@);
            crate::textutil::lemma_lines_count(content@);
        }
        let psum = byte_prefix_sums(&v);

        let title = match &metadata.file_path {
            Option::Some(p) => file_name_of(p.as_str()),
            Option::None => Option::None,
        };
        proof {
            assert(title_is_file_name(*metadata, title));
        }

        // collect the trimmed, non-empty paragraphs
        let (paras, nlines) = collect_paragraphs(content, &v);

        proof {
            assert forall|m: int| 0 <= m < paras@.len() implies ({
                &&& 0 <= (#[trigger] paras@[m]).from <= paras@[m].to <= content@.len()
                &&& paras@[m].line_a <= paras@[m].line_b < 0x4000_0001
            }) by {
                assert(paras@[m].line_b < nlines);
            }
        }
        let (chunks0, g) = accumulate_into_chunks(
            self.target_size,
            content,
            &psum,
            &paras,
            &title,
            metadata,
        );
        let mut chunks = chunks0;
        let ghost mut gsp = g@;
        let ghost accumulated = chunks@;

        // a document that emitted nothing but meets the minimum size is
        // kept whole as a single chunk
        if chunks.len() == 0 {
            proof {
                assert(v@.take(n as int) =~= content@);
                assert(content@.subrange(0, n as int) =~= content@);
                assert(nlines >= 1) by {
                    if crate::textutil::lines_of(content@).len() == 0 {
                        assert(content@.len() == 0);
                        assert(is_blank(content@));
                    }
                }
            }
            let total = psum[n];
            if total >= MIN_CHUNK {
                let ch = emit_text_chunk(content, &psum, 0, n, 0, nlines - 1, &title, metadata);
                chunks.push(ch);
                proof {
                    gsp = seq![(0int, n as int)];
                    assert(chunks@[0] == ch);
                    assert(ch.content@ == content@);
                }
            }
        }
        proof {
            assert(text_spans_ok(content@, chunks@, gsp));
            assert(text_chunks_ok(content@, *metadata, accumulated));
            assert(text_fallback_ok(content@, *metadata, chunks@));
        }
        chunks
    }
}


/// Accumulates ordered, disjoint paragraphs into chunks: a chunk is flushed
/// when the next paragraph would push it past the target size, and only when
/// it meets the minimum size. Returns the chunks with the spans they cover.
#[verifier::rlimit(100)]
#[verifier::spinoff_prover]
fn accumulate_into_chunks(
    target_size: usize,
    content: &str,
    psum: &Vec<usize>,
    paras: &Vec<Paragraph>,
    title: &Option<String>,
    metadata: &DocMetadata,
) -> (r: (Vec<Chunk>, Ghost<Seq<(int, int)>>))
    requires
        psum_ok(content@, psum@),
        content@.len() < 0x4000_0000,
        title_is_file_name(*metadata, *title),
        forall|m: int|
            0 <= m < paras@.len() ==> ({
                &&& 0 <= (#[trigger] paras@[m]).from <= paras@[m].to <= content@.len()
                &&& paras@[m].line_a <= paras@[m].line_b < 0x4000_0001
            }),
        forall|m: int|
            0 <= m < paras@.len() - 1 ==> (#[trigger] paras@[m]).to <= paras@[m + 1].from,
    ensures
        text_chunks_ok(content@, *metadata, r.0@),
        text_spans_ok(content@, r.0@, r.1@),
{
    let np = paras.len();
    let mut chunks: Vec<Chunk> = Vec::new();
    let mut k: usize = 0;
    let mut cur: Option<Paragraph> = Option::None;
    let ghost mut gsp: Seq<(int, int)> = Seq::empty();
    while k < np
        invariant
            0 <= k <= np,
            np == paras@.len(),
            title_is_file_name(*metadata, *title),
            psum_ok(content@, psum@),
            content@.len() < 0x4000_0000,
            forall|m: int|
                0 <= m < paras@.len() ==> ({
                    &&& 0 <= (#[trigger] paras@[m]).from <= paras@[m].to <= content@.len()
                    &&& paras@[m].line_a <= paras@[m].line_b < 0x4000_0001
                }),
            forall|m: int|
                0 <= m < paras@.len() - 1 ==> (#[trigger] paras@[m]).to <= paras@[m + 1].from,
            match cur {
                Option::Some(c) => 0 <= c.from <= c.to <= content@.len() && c.line_a <= c.line_b
                    < 0x4000_0001 && (gsp.len() > 0 ==> gsp.last().1 <= c.from) && (k < np
                    ==> c.to <= paras@[k as int].from),
                Option::None => gsp.len() == 0,
            },
            text_chunks_ok(content@, *metadata, chunks@),
            text_spans_ok(content@, chunks@, gsp),
        decreases np - k,
    {
        let p = Paragraph {
            from: paras[k].from,
            to: paras[k].to,
            line_a: paras[k].line_a,
            line_b: paras[k].line_b,
        };
        cur = match cur {
            Option::None => Option::Some(p),
            Option::Some(c) => {
                proof {
                    lemma_byte_len_subrange(content@, c.from as int, c.to as int);
                    lemma_byte_len_bounds(content@.subrange(c.from as int, c.to as int));
                }
                if p.to >= c.from {
                    proof {
                        lemma_byte_len_subrange(content@, c.from as int, p.to as int);
                        lemma_byte_len_bounds(content@.subrange(c.from as int, p.to as int));
                    }
                }
                let grown: u64 = if p.to >= c.from {
                    (psum[p.to] - psum[c.from]) as u64
                } else {
                    0
                };
                let cur_size = psum[c.to] - psum[c.from];
                if grown > target_size as u64 {
                    if cur_size >= MIN_CHUNK {
                        let ch = emit_text_chunk(
                            content,
                            psum,
                            c.from,
                            c.to,
                            c.line_a,
                            c.line_b,
                            title,
                            metadata,
                        );
                        let ghost pre_chunks = chunks@;
                        let ghost pre_gsp = gsp;
                        chunks.push(ch);
                        proof {
                            gsp = gsp.push((c.from as int, c.to as int));
                            assert(forall|m: int|
                                0 <= m < pre_gsp.len() ==> #[trigger] gsp[m] == pre_gsp[m]);
                            assert(forall|m: int|
                                0 <= m < pre_chunks.len() ==> #[trigger] chunks@[m]
                                    == pre_chunks[m]);
                            assert(gsp.last() == (c.from as int, c.to as int));
                            assert(chunks@.last() == ch);
                            assert(text_spans_ok(content@, chunks@, gsp));
                            assert(gsp.last().1 <= p.from);
                        }
                    }
                    Option::Some(p)
                } else {
                    let merged = Paragraph {
                        from: c.from,
                        to: if p.to >= c.to {
                            p.to
                        } else {
                            c.to
                        },
                        line_a: c.line_a,
                        line_b: if p.line_b >= c.line_b {
                            p.line_b
                        } else {
                            c.line_b
                        },
                    };
                    proof {
                        if k + 1 < np {
                            assert(paras@[k as int].to <= paras@[k + 1].from);
                            assert(merged.to <= paras@[k + 1].from);
                        }
                    }
                    Option::Some(merged)
                }
            },
        };
        k = k + 1;
    }
    match cur {
        Option::Some(c) => {
            proof {
                lemma_byte_len_subrange(content@, c.from as int, c.to as int);
                lemma_byte_len_bounds(content@.subrange(c.from as int, c.to as int));
            }
            let cur_size = psum[c.to] - psum[c.from];
            if cur_size >= MIN_CHUNK {
                let ch = emit_text_chunk(
                    content,
                    psum,
                    c.from,
                    c.to,
                    c.line_a,
                    c.line_b,
                    title,
                    metadata,
                );
                let ghost pre_chunks = chunks@;
                let ghost pre_gsp = gsp;
                chunks.push(ch);
                proof {
                    gsp = gsp.push((c.from as int, c.to as int));
                    assert(forall|m: int|
                        0 <= m < pre_gsp.len() ==> #[trigger] gsp[m] == pre_gsp[m]);
                    assert(forall|m: int|
                        0 <= m < pre_chunks.len() ==> #[trigger] chunks@[m] == pre_chunks[m]);
                    assert(text_spans_ok(content@, chunks@, gsp));
                }
            }
        },
        Option::None => {},
    }
    (chunks, Ghost(gsp))
}

/// The trimmed, non-empty paragraphs of the text: maximal runs of non-empty
/// lines, each trimmed, empty ones dropped.
#[verifier::loop_isolation(false)]
#[verifier::rlimit(100)]
#[verifier::spinoff_prover]
fn collect_paragraphs(content: &str, v: &Vec<char>) -> (r: (Vec<Paragraph>, usize))
    requires
        v@ == content@,
    ensures
        forall|k: int|
            0 <= k < r.0@.len() ==> ({
                &&& 0 <= (#[trigger] r.0@[k]).from <= r.0@[k].to <= content@.len()
                &&& r.0@[k].line_a <= r.0@[k].line_b
                &&& r.0@[k].line_b < r.1
            }),
        forall|k: int|
            0 <= k < r.0@.len() - 1 ==> (#[trigger] r.0@[k]).to <= r.0@[k + 1].from,
        r.1 == crate::textutil::lines_of(content@).len(),
{
    let spans = line_spans(v);
    proof {
        assert forall|j: int, k: int|
            0 <= j <= k < spans@.len() implies (#[trigger] spans@[j]).start
            <= (#[trigger] spans@[k]).start by {
            crate::chunking::markdown::lemma_spans_monotonic(content@, spans@, j, k);
        }
        assert(spans_in_range(content@, spans@));
    }
    let nlines = spans.len();
    let mut paras: Vec<Paragraph> = Vec::new();
    let mut li: usize = 0;
    while li < nlines
        invariant
            0 <= li <= nlines,
            forall|k: int|
                0 <= k < paras@.len() ==> ({
                    &&& 0 <= (#[trigger] paras@[k]).from <= paras@[k].to <= v@.len()
                    &&& paras@[k].line_a <= paras@[k].line_b
                    &&& paras@[k].line_b < nlines
                }),
            forall|k: int|
                0 <= k < paras@.len() - 1 ==> (#[trigger] paras@[k]).to <= paras@[k + 1].from,
            paras@.len() > 0 ==> paras@.last().to <= line_bound(content@, spans@, li as int),
        decreases nlines - li,
    {
        // skip empty lines
        if spans[li].end == spans[li].start {
            proof {
                if paras@.len() > 0 && li + 1 < nlines {
                    assert(spans@[li as int].start <= spans@[li as int].next);
                    assert(spans@[li + 1].start == spans@[li as int].next);
                }
            }
            li = li + 1;
        } else {
            // a paragraph: a run of non-empty lines
            let pa = li;
            let mut pb = li;
            while pb + 1 < nlines && spans[pb + 1].end > spans[pb + 1].start
                invariant
                    li <= pb < nlines,
                decreases nlines - pb,
            {
                pb = pb + 1;
            }
            let (ta, te) = trim_bounds(&v, spans[pa].start, spans[pb].end);
            if ta < te {
                proof {
                    if paras@.len() > 0 {
                        assert(paras@.last().to <= spans@[pa as int].start);
                    }
                }
                paras.push(Paragraph { from: ta, to: te, line_a: pa, line_b: pb });
            }
            proof {
                assert(te <= spans@[pb as int].end <= spans@[pb as int].next);
                if pb + 1 < nlines {
                    assert(spans@[pb + 1].start == spans@[pb as int].next);
                } else {
                    assert(spans@[spans@.len() - 1].next == content@.len());
                }
            }
            li = pb + 1;
        }
    }
    (paras, nlines)
}

/// Emits one paragraph-aligned chunk over `content[from..to)`.
fn emit_text_chunk(
    content: &str,
    psum: &Vec<usize>,
    from: usize,
    to: usize,
    line_a: usize,
    line_b: usize,
    title: &Option<String>,
    meta: &DocMetadata,
) -> (c: Chunk)
    requires
        psum_ok(content@, psum@),
        0 <= from <= to <= content@.len(),
        byte_len(content@.subrange(from as int, to as int)) >= MIN_CHUNK as int,
        line_a <= line_b,
        line_b < 0x4000_0001,
        content@.len() < 0x4000_0000,
        title_is_file_name(*meta, *title),
    ensures
        text_chunk_ok(content@, *meta, c),
        c.content@ == content@.subrange(from as int, to as int),
{
    let text = String::from_str(content.substring_char(from, to));
    let mut md = ChunkMetadata::new(meta);
    md = md.with_title(clone_opt_string(title));
    md = md.with_lines((line_a + 1) as u32, (line_b + 1) as u32);
    let c = create_chunk(text, md);
    proof {
        assert(c.content@ == content@.subrange(from as int, to as int));
        assert(hierarchy_matches(c.metadata)) by {
            assert(c.metadata.hierarchy@.map_values(|s: String| s@)
                =~= crate::chunking::markdown::opt_view(c.metadata.title)
                + crate::chunking::markdown::opt_view(c.metadata.section)
                + crate::chunking::markdown::opt_view(c.metadata.subsection));
        }
    }
    c
}

} // verus!
