//! Content-aware chunking: a registry that picks a splitter by file
//! extension, and the chunk and metadata types the splitters produce.

pub mod fallback;
pub mod markdown;
pub mod pdf;
pub mod text;

use crate::outside::{md5_hex, md5_hex_of, new_uuid};
use vstd::prelude::*;
use vstd::string::StrSliceExecFns;

verus! {

/// Aimed-for chunk size, in UTF-8 bytes.
pub const TARGET_SIZE: usize = 1500;

/// Overlap between neighbouring sliding-window chunks, in bytes.
pub const OVERLAP: usize = 200;

/// Chunks shorter than this are dropped.
pub const MIN_CHUNK: usize = 100;

/// Hard upper limit on a chunk's size.
pub const MAX_CHUNK: usize = 3000;

/// Document context handed to a chunker.
pub struct DocMetadata {
    pub document_id: String,
    pub source_id: String,
    pub file_path: Option<String>,
}

/// A chunk of content with its metadata.
pub struct Chunk {
    pub id: String,
    pub content: String,
    pub metadata: ChunkMetadata,
}

/// Metadata of one chunk.
pub struct ChunkMetadata {
    pub document_id: String,
    pub source_id: String,
    pub file_path: Option<String>,
    /// Top heading, or the file name.
    pub title: Option<String>,
    /// Second-level heading.
    pub section: Option<String>,
    /// Third-level heading.
    pub subsection: Option<String>,
    /// Heading path from outermost to innermost.
    pub hierarchy: Vec<String>,
    /// Whether the chunk holds a fenced code block.
    pub has_code: bool,
    pub line_start: u32,
    pub line_end: u32,
    pub content_hash: String,
}

/// Two options on strings agree in value.
pub open spec fn opt_str_eq(a: Option<String>, b: Option<String>) -> bool {
    match (a, b) {
        (Option::Some(x), Option::Some(y)) => x@ == y@,
        (Option::None, Option::None) => true,
        _ => false,
    }
}

/// Clone of an optional string, with its value known.
pub fn clone_opt_string(o: &Option<String>) -> (r: Option<String>)
    ensures
        opt_str_eq(r, *o),
        r is Some <==> *o is Some,
{
    match o {
        Option::Some(s) => Option::Some(s.clone()),
        Option::None => Option::None,
    }
}

impl ChunkMetadata {
    /// Fresh metadata for a document: no headings, line one, no hash yet.
    pub fn new(doc: &DocMetadata) -> (r: Self)
        ensures
            r.document_id@ == doc.document_id@,
            r.source_id@ == doc.source_id@,
            opt_str_eq(r.file_path, doc.file_path),
            r.title is None,
            r.section is None,
            r.subsection is None,
            r.hierarchy@.len() == 0,
            r.has_code == false,
            r.line_start == 1,
            r.line_end == 1,
            r.content_hash@.len() == 0,
    {
        ChunkMetadata {
            document_id: doc.document_id.clone(),
            source_id: doc.source_id.clone(),
            file_path: clone_opt_string(&doc.file_path),
            title: Option::None,
            section: Option::None,
            subsection: Option::None,
            hierarchy: Vec::new(),
            has_code: false,
            line_start: 1,
            line_end: 1,
            content_hash: String::new(),
        }
    }

    /// Sets the title; a fresh title is also placed at the front of the
    /// hierarchy unless it is already there.
    pub fn with_title(self, title: Option<String>) -> (r: Self)
        ensures
            opt_str_eq(r.title, title),
            r.section == self.section,
            r.subsection == self.subsection,
            r.document_id == self.document_id,
            r.source_id == self.source_id,
            r.file_path == self.file_path,
            r.has_code == self.has_code,
            r.line_start == self.line_start,
            r.line_end == self.line_end,
            r.content_hash == self.content_hash,
            match title {
                Option::Some(t) => if self.hierarchy@.len() == 0 || self.hierarchy@[0]@ != t@ {
                    r.hierarchy@.len() == self.hierarchy@.len() + 1 && r.hierarchy@[0]@ == t@
                        && r.hierarchy@.skip(1) == self.hierarchy@
                } else {
                    r.hierarchy == self.hierarchy
                },
                Option::None => r.hierarchy == self.hierarchy,
            },
    {
        let mut r = self;
        match title {
            Option::Some(t) => {
                r.title = Option::Some(t.clone());
                let differs = if r.hierarchy.len() == 0 {
                    true
                } else {
                    !(r.hierarchy[0] == t)
                };
                if differs {
                    let ghost pre = r.hierarchy@;
                    r.hierarchy.insert(0, t);
                    proof {
                        assert(r.hierarchy@.skip(1) =~= pre);
                    }
                }
            },
            Option::None => {
                r.title = Option::None;
            },
        }
        r
    }

    /// Sets the section, padding the hierarchy so the section sits at depth
    /// two.
    pub fn with_section(self, section: Option<String>) -> (r: Self)
        ensures
            opt_str_eq(r.section, section),
            r.title == self.title,
            r.subsection == self.subsection,
            r.document_id == self.document_id,
            r.source_id == self.source_id,
            r.file_path == self.file_path,
            r.has_code == self.has_code,
            r.line_start == self.line_start,
            r.line_end == self.line_end,
            r.content_hash == self.content_hash,
            match section {
                Option::Some(s) => {
                    &&& r.hierarchy@.len() == if self.hierarchy@.len() < 2 {
                        2int
                    } else {
                        self.hierarchy@.len() as int
                    }
                    &&& r.hierarchy@[1]@ == s@
                    &&& (self.hierarchy@.len() >= 1 ==> r.hierarchy@[0] == self.hierarchy@[0])
                    &&& (forall|i: int|
                        2 <= i < self.hierarchy@.len() ==> #[trigger] r.hierarchy@[i]
                            == self.hierarchy@[i])
                },
                Option::None => r.hierarchy == self.hierarchy,
            },
    {
        let mut r = self;
        match section {
            Option::Some(s) => {
                r.section = Option::Some(s.clone());
                if r.hierarchy.len() < 1 {
                    r.hierarchy.push(String::new());
                }
                if r.hierarchy.len() == 1 {
                    r.hierarchy.push(s);
                } else {
                    let ghost pre = r.hierarchy@;
                    r.hierarchy.remove(1);
                    r.hierarchy.insert(1, s);
                    proof {
                        assert(forall|i: int|
                            2 <= i < pre.len() ==> #[trigger] r.hierarchy@[i] == pre[i]);
                    }
                }
            },
            Option::None => {
                r.section = Option::None;
            },
        }
        r
    }

    /// Sets the subsection, padding the hierarchy so the subsection sits at
    /// depth three.
    pub fn with_subsection(self, subsection: Option<String>) -> (r: Self)
        ensures
            opt_str_eq(r.subsection, subsection),
            r.title == self.title,
            r.section == self.section,
            r.document_id == self.document_id,
            r.source_id == self.source_id,
            r.file_path == self.file_path,
            r.has_code == self.has_code,
            r.line_start == self.line_start,
            r.line_end == self.line_end,
            r.content_hash == self.content_hash,
            match subsection {
                Option::Some(s) => {
                    &&& r.hierarchy@.len() == if self.hierarchy@.len() < 3 {
                        3int
                    } else {
                        self.hierarchy@.len() as int
                    }
                    &&& r.hierarchy@[2]@ == s@
                    &&& (forall|i: int|
                        0 <= i < 2 && i < self.hierarchy@.len() ==> #[trigger] r.hierarchy@[i]
                            == self.hierarchy@[i])
                    &&& (forall|i: int|
                        3 <= i < self.hierarchy@.len() ==> #[trigger] r.hierarchy@[i]
                            == self.hierarchy@[i])
                },
                Option::None => r.hierarchy == self.hierarchy,
            },
    {
        let mut r = self;
        match subsection {
            Option::Some(s) => {
                r.subsection = Option::Some(s.clone());
                if r.hierarchy.len() < 2 {
                    r.hierarchy.push(String::new());
                }
                if r.hierarchy.len() < 2 {
                    r.hierarchy.push(String::new());
                }
                if r.hierarchy.len() == 2 {
                    r.hierarchy.push(s);
                } else {
                    let ghost pre = r.hierarchy@;
                    r.hierarchy.remove(2);
                    r.hierarchy.insert(2, s);
                    proof {
                        assert(forall|i: int|
                            3 <= i < pre.len() ==> #[trigger] r.hierarchy@[i] == pre[i]);
                        assert(forall|i: int|
                            0 <= i < 2 ==> #[trigger] r.hierarchy@[i] == pre[i]);
                    }
                }
            },
            Option::None => {
                r.subsection = Option::None;
            },
        }
        r
    }

    /// Sets the line range.
    pub fn with_lines(self, start: u32, end: u32) -> (r: Self)
        ensures
            r == (Self { line_start: start, line_end: end, ..self }),
    {
        let mut r = self;
        r.line_start = start;
        r.line_end = end;
        r
    }

    /// Sets the code-block flag.
    pub fn with_code(self, has_code: bool) -> (r: Self)
        ensures
            r == (Self { has_code, ..self }),
    {
        let mut r = self;
        r.has_code = has_code;
        r
    }
}

/// Index of the last occurrence of `c` in `s`, or `-1`.
pub open spec fn rfind(s: Seq<char>, c: char) -> int
    decreases s.len(),
{
    if s.len() == 0 {
        -1
    } else if s.last() == c {
        s.len() - 1
    } else {
        rfind(s.drop_last(), c)
    }
}

/// The lowercased extension of a path: what follows the last `.` of the part
/// after the last `/`, unless the name starts with that dot or has none.
pub open spec fn extension_of(path: Seq<char>) -> Option<Seq<char>> {
    let name = path.skip(rfind(path, '/') + 1);
    let d = rfind(name, '.');
    if d <= 0 {
        Option::None
    } else {
        Option::Some(crate::outside::ascii_lower_of(name.skip(d + 1)))
    }
}

pub proof fn lemma_rfind_is(s: Seq<char>, c: char, i: int)
    requires
        -1 <= i < s.len(),
        i >= 0 ==> s[i] == c,
        forall|j: int| i < j < s.len() ==> #[trigger] s[j] != c,
    ensures
        rfind(s, c) == i,
    decreases s.len(),
{
    if s.len() > 0 {
        if i == s.len() - 1 {
        } else {
            assert(s.last() != c);
            lemma_rfind_is(s.drop_last(), c, i);
        }
    }
}

/// Computes the lowercased file extension of a path.
pub fn get_extension(file_path: &str) -> (r: Option<String>)
    ensures
        match (r, extension_of(file_path@)) {
            (Option::Some(s), Option::Some(e)) => s@ == e,
            (Option::None, Option::None) => true,
            _ => false,
        },
{
    let v = crate::textutil::to_chars(file_path);
    let n = v.len();
    let mut cut: usize = 0;
    let mut i: usize = 0;
    while i < n
        invariant
            0 <= cut <= i <= n,
            n == v@.len(),
            cut >= 1 ==> v@[cut - 1] == '/',
            forall|j: int| cut <= j < i ==> #[trigger] v@[j] != '/',
            cut == 0 ==> forall|j: int| 0 <= j < i ==> #[trigger] v@[j] != '/',
        decreases n - i,
    {
        if v[i] == '/' {
            cut = i + 1;
        }
        i = i + 1;
    }
    proof {
        lemma_rfind_is(v@, '/', cut - 1);
        assert(rfind(file_path@, '/') == cut - 1);
    }
    let mut dot: usize = cut;
    let mut k: usize = cut;
    let mut have_dot = false;
    while k < n
        invariant
            cut <= k <= n,
            n == v@.len(),
            cut <= dot <= k,
            have_dot ==> dot < k && v@[dot as int] == '.',
            forall|j: int| dot < j < k && have_dot ==> #[trigger] v@[j] != '.',
            !have_dot ==> dot == cut && forall|j: int| cut <= j < k ==> #[trigger] v@[j] != '.',
        decreases n - k,
    {
        if v[k] == '.' {
            dot = k;
            have_dot = true;
        }
        k = k + 1;
    }
    proof {
        let name = file_path@.skip(cut as int);
        assert(name.len() == n - cut);
        assert forall|j: int| 0 <= j < name.len() implies #[trigger] name[j] == v@[cut + j] by {}
        if have_dot {
            lemma_rfind_is(name, '.', dot - cut);
        } else {
            lemma_rfind_is(name, '.', -1);
        }
    }
    if have_dot && dot > cut {
        let ext = file_path.substring_char(dot + 1, n);
        proof {
            let name = file_path@.skip(cut as int);
            assert(ext@ =~= name.skip(dot - cut + 1));
        }
        Option::Some(crate::outside::ascii_lower(ext))
    } else {
        Option::None
    }
}

/// Picks the chunker that matches a file's extension.
pub struct ChunkerRegistry {
    pub markdown: markdown::MarkdownChunker,
    pub text: text::TextChunker,
    pub pdf: pdf::PdfChunker,
    pub fallback: fallback::FallbackChunker,
}

/// What the registry's dispatch guarantees, by extension.
pub open spec fn dispatch_ok(
    ext: Option<Seq<char>>,
    doc: Seq<char>,
    meta: DocMetadata,
    chunks: Seq<Chunk>,
) -> bool {
    if ext == Option::Some("md"@) || ext == Option::Some("markdown"@) || ext == Option::Some(
        "pdf"@,
    ) {
        markdown::chunks_ok(doc, meta, chunks)
    } else if ext == Option::Some("txt"@) {
        text::text_chunks_ok(doc, meta, chunks)
    } else {
        fallback::window_chunks_ok(doc, meta, chunks)
    }
}

impl ChunkerRegistry {
    /// A registry with the default chunkers.
    pub fn new() -> (r: Self)
        ensures
            r.markdown.target_size == TARGET_SIZE,
            r.text.target_size == TARGET_SIZE,
            r.pdf.md_chunker.target_size == TARGET_SIZE,
            r.fallback.target_size == TARGET_SIZE,
            r.fallback.overlap == OVERLAP,
    {
        ChunkerRegistry {
            markdown: markdown::MarkdownChunker::new(),
            text: text::TextChunker::new(),
            pdf: pdf::PdfChunker::new(),
            fallback: fallback::FallbackChunker::new(),
        }
    }

    /// Chunks content with the splitter matching the file extension:
    /// markdown for `md`/`markdown`, paragraphs for `txt`, the
    /// markdown-delegating PDF chunker for `pdf`, and the sliding window for
    /// everything else. Blank content always yields no chunks.
    pub fn chunk(&self, content: &str, file_path: Option<&str>, metadata: &DocMetadata) -> (r:
        Vec<Chunk>)
        requires
            content@.len() < 0x4000_0000,
        ensures
            crate::textutil::trim_spec(content@).len() == 0 ==> r@.len() == 0,
            crate::textutil::trim_spec(content@).len() > 0 && content@.len() >= MIN_CHUNK
                ==> r@.len() >= 1,
            forall|p: &str|
                file_path == Option::Some(p) ==> dispatch_ok(
                    extension_of(#[trigger] p@),
                    content@,
                    *metadata,
                    r@,
                ),
            file_path is None ==> fallback::window_chunks_ok(content@, *metadata, r@),
    {
        proof {
            if crate::textutil::trim_spec(content@).len() > 0 {
                if crate::textutil::is_blank(content@) {
                    crate::textutil::lemma_blank_trim(content@);
                }
                assert(!crate::textutil::is_blank(content@));
                crate::textutil::lemma_byte_len_bounds(content@);
            }
        }
        let ext: Option<String> = match file_path {
            Option::Some(p) => get_extension(p),
            Option::None => Option::None,
        };
        let ghost eo: Option<Seq<char>> = match file_path {
            Option::Some(p) => extension_of(p@),
            Option::None => Option::None,
        };
        proof {
            reveal_strlit("md");
            reveal_strlit("markdown");
            reveal_strlit("txt");
            reveal_strlit("pdf");
            assert forall|p: &str| file_path == Option::Some(p) implies extension_of(#[trigger] p@)
                == eo by {}
        }
        match ext {
            Option::Some(e) => {
                proof {
                    assert(eo == Option::Some(e@));
                }
                if crate::textutil::str_eq(e.as_str(), "md") || crate::textutil::str_eq(
                    e.as_str(),
                    "markdown",
                ) {
                    proof {
                        assert(eo == Option::Some("md"@) || eo == Option::Some("markdown"@));
                    }
                    let r0 = self.markdown.chunk_markdown(content, metadata);
                    proof {
                        assert(markdown::chunks_ok(content@, *metadata, r0@));
                        assert(dispatch_ok(eo, content@, *metadata, r0@));
                    }
                    r0
                } else if crate::textutil::str_eq(e.as_str(), "txt") {
                    proof {
                        assert(eo == Option::Some("txt"@));
                    }
                    let r0 = self.text.chunk_text(content, metadata);
                    proof {
                        assert(dispatch_ok(eo, content@, *metadata, r0@));
                    }
                    r0
                } else if crate::textutil::str_eq(e.as_str(), "pdf") {
                    proof {
                        assert(eo == Option::Some("pdf"@));
                    }
                    let r0 = self.pdf.chunk_pdf(content, metadata);
                    proof {
                        assert(dispatch_ok(eo, content@, *metadata, r0@));
                    }
                    r0
                } else {
                    proof {
                        assert(eo != Option::Some("md"@) && eo != Option::Some("markdown"@) && eo
                            != Option::Some("txt"@) && eo != Option::Some("pdf"@));
                    }
                    let r0 = self.fallback.chunk_sliding(content, metadata);
                    proof {
                        assert(dispatch_ok(eo, content@, *metadata, r0@));
                    }
                    r0
                }
            },
            Option::None => {
                proof {
                    assert(eo is None);
                }
                let r0 = self.fallback.chunk_sliding(content, metadata);
                proof {
                    assert(dispatch_ok(eo, content@, *metadata, r0@));
                }
                r0
            },
        }
    }
}

/// What every splitter guarantees of each emitted chunk: the document's
/// identifiers and path carried over, a fresh 36-character id, and the
/// chunk content's digest as its hash.
pub open spec fn chunk_basics(meta: DocMetadata, c: Chunk) -> bool {
    &&& c.metadata.document_id@ == meta.document_id@
    &&& c.metadata.source_id@ == meta.source_id@
    &&& opt_str_eq(c.metadata.file_path, meta.file_path)
    &&& c.id@.len() == 36
    &&& c.metadata.content_hash@ == md5_hex_of(c.content@)
}

/// A content-aware splitter: blank content yields no chunks, content of at
/// least the minimum size yields at least one, and every chunk carries the
/// document's identity and its content's digest.
pub trait Chunker {
    /// Splits content into chunks.
    fn chunk(&self, content: &str, metadata: &DocMetadata) -> (r: Vec<Chunk>)
        requires
            content@.len() < 0x4000_0000,
        ensures
            crate::textutil::trim_spec(content@).len() == 0 ==> r@.len() == 0,
            crate::textutil::trim_spec(content@).len() > 0 && content@.len() >= MIN_CHUNK
                ==> r@.len() >= 1,
            forall|i: int| 0 <= i < r@.len() ==> chunk_basics(*metadata, #[trigger] r@[i]),
    ;

    /// The file extensions this splitter handles.
    fn supported_extensions(&self) -> (r: Vec<&'static str>);
}

/// Blank content trims to nothing; content that trims to something is not
/// blank and has at least as many bytes as characters.
proof fn lemma_trim_size_bridge(s: Seq<char>)
    requires
        crate::textutil::trim_spec(s).len() > 0,
    ensures
        !crate::textutil::is_blank(s),
        crate::textutil::byte_len(s) >= s.len(),
{
    if crate::textutil::is_blank(s) {
        crate::textutil::lemma_blank_trim(s);
    }
    crate::textutil::lemma_byte_len_bounds(s);
}

impl Chunker for markdown::MarkdownChunker {
    fn chunk(&self, content: &str, metadata: &DocMetadata) -> (r: Vec<Chunk>) {
        let r = self.chunk_markdown(content, metadata);
        proof {
            if crate::textutil::trim_spec(content@).len() > 0 {
                lemma_trim_size_bridge(content@);
            }
            assert forall|i: int| 0 <= i < r@.len() implies chunk_basics(
                *metadata,
                #[trigger] r@[i],
            ) by {
                assert(markdown::md_chunk_ok(content@, *metadata, r@[i]));
            }
        }
        r
    }

    fn supported_extensions(&self) -> (r: Vec<&'static str>) {
        let mut v: Vec<&'static str> = Vec::new();
        v.push("md");
        v.push("markdown");
        v
    }
}

impl Chunker for text::TextChunker {
    fn chunk(&self, content: &str, metadata: &DocMetadata) -> (r: Vec<Chunk>) {
        let r = self.chunk_text(content, metadata);
        proof {
            if crate::textutil::trim_spec(content@).len() > 0 {
                lemma_trim_size_bridge(content@);
            }
            assert forall|i: int| 0 <= i < r@.len() implies chunk_basics(
                *metadata,
                #[trigger] r@[i],
            ) by {
                assert(text::text_chunk_ok(content@, *metadata, r@[i]));
            }
        }
        r
    }

    fn supported_extensions(&self) -> (r: Vec<&'static str>) {
        let mut v: Vec<&'static str> = Vec::new();
        v.push("txt");
        v
    }
}

impl Chunker for pdf::PdfChunker {
    fn chunk(&self, content: &str, metadata: &DocMetadata) -> (r: Vec<Chunk>) {
        let r = self.chunk_pdf(content, metadata);
        proof {
            if crate::textutil::trim_spec(content@).len() > 0 {
                lemma_trim_size_bridge(content@);
            }
            assert forall|i: int| 0 <= i < r@.len() implies chunk_basics(
                *metadata,
                #[trigger] r@[i],
            ) by {
                assert(markdown::md_chunk_ok(content@, *metadata, r@[i]));
            }
        }
        r
    }

    fn supported_extensions(&self) -> (r: Vec<&'static str>) {
        let mut v: Vec<&'static str> = Vec::new();
        v.push("pdf");
        v
    }
}

impl Chunker for fallback::FallbackChunker {
    fn chunk(&self, content: &str, metadata: &DocMetadata) -> (r: Vec<Chunk>) {
        let r = self.chunk_sliding(content, metadata);
        proof {
            if crate::textutil::trim_spec(content@).len() > 0 {
                lemma_trim_size_bridge(content@);
            }
            assert forall|i: int| 0 <= i < r@.len() implies chunk_basics(
                *metadata,
                #[trigger] r@[i],
            ) by {
                assert(fallback::window_chunk_ok(content@, *metadata, r@[i]));
            }
        }
        r
    }

    fn supported_extensions(&self) -> (r: Vec<&'static str>) {
        Vec::new()
    }
}

/// Builds a chunk: a fresh random id, and the content's MD5 digest as its
/// `content_hash`.
pub fn create_chunk(content: String, metadata: ChunkMetadata) -> (r: Chunk)
    ensures
        r.content == content,
        r.id@.len() == 36,
        r.metadata.content_hash@ == md5_hex_of(content@),
        r.metadata == (ChunkMetadata { content_hash: r.metadata.content_hash, ..metadata }),
{
    let hash = md5_hex(content.as_str());
    let mut meta = metadata;
    meta.content_hash = hash;
    Chunk { id: new_uuid(), content, metadata: meta }
}

} // verus!
