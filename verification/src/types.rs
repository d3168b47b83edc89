//! The data types the store and the search pipeline exchange.
//!
//! Relevance scores are fixed-point integers counted in millionths (see the
//! score module); the embedding vectors they accompany use the same scale.

use crate::textutil::str_eq;
use vstd::prelude::*;
use vstd::string::StringExecFns;

verus! {

/// A document with its full content.
pub struct Document {
    pub id: String,
    pub source_id: String,
    pub title: String,
    pub content: String,
    pub file_path: Option<String>,
    pub created_at: String,
    pub chunk_count: u32,
}

/// Document metadata without content, for listing.
pub struct DocumentMeta {
    pub id: String,
    pub source_id: String,
    pub title: String,
    pub file_path: Option<String>,
    pub created_at: String,
    pub chunk_count: u32,
    pub content_length: usize,
}

/// A document chunk with its text.
pub struct Chunk {
    pub id: String,
    pub document_id: String,
    pub source_id: String,
    pub title: Option<String>,
    pub content: String,
    pub file_path: Option<String>,
    pub line_start: Option<u32>,
    pub line_end: Option<u32>,
    pub content_hash: String,
}

/// One search hit, with its fused score in millionths.
pub struct SearchResult {
    pub id: String,
    pub source_id: String,
    pub title: Option<String>,
    pub content: String,
    pub file_path: Option<String>,
    pub line_start: Option<u32>,
    pub score: i64,
}

/// Chunk metadata coming out of a vector search, with its similarity score
/// in millionths; the text is fetched separately from the content store.
pub struct ChunkMeta {
    pub id: String,
    pub document_id: String,
    pub source_id: String,
    pub title: Option<String>,
    pub file_path: Option<String>,
    pub line_start: Option<u32>,
    pub line_end: Option<u32>,
    pub score: i64,
}

/// Document metadata as the vector index stores it.
pub struct DocumentRecord {
    pub id: String,
    pub source_id: String,
    pub title: String,
    pub file_path: Option<String>,
    pub created_at: String,
    pub chunk_count: u32,
    pub content_length: u32,
}

/// A source: a tag partitioning the corpus, with aggregate counts.
pub struct Source {
    pub id: String,
    pub name: String,
    pub description: Option<String>,
    pub doc_count: u64,
    pub chunk_count: u64,
    pub last_indexed: Option<String>,
}

/// Summary of one ingest run over files.
pub struct IngestResult {
    pub source_id: String,
    pub files_processed: u32,
    pub chunks_created: u32,
    pub chunks_skipped: u32,
}

/// The default number of results a search request asks for.
pub fn default_limit() -> (r: usize)
    ensures
        r == 5,
{
    5
}

/// A search request.
pub struct SearchRequest {
    pub query: String,
    pub limit: usize,
    pub source_id: Option<String>,
}

/// A search response.
pub struct SearchResponse {
    pub query: String,
    pub results: Vec<SearchResult>,
    pub count: usize,
}

/// One document handed to ingest.
pub struct DocumentInput {
    pub content: String,
    pub title: Option<String>,
    pub file_path: Option<String>,
    /// Whether the content arrived as an encoded PDF; the surrounding
    /// application extracts such content to markdown before it reaches the
    /// library.
    pub is_pdf: bool,
}

/// An ingest request.
pub struct IngestRequest {
    pub source_id: String,
    pub documents: Vec<DocumentInput>,
}

/// An ingest response.
pub struct IngestResponse {
    pub source_id: String,
    pub documents_created: u32,
    pub chunks_created: u32,
    pub chunks_skipped: u32,
    pub document_ids: Vec<String>,
}

/// A request to fetch and ingest a page.
pub struct FetchUrlRequest {
    pub url: String,
    pub source_id: Option<String>,
}

/// Status of a queued document.
#[derive(Clone, Copy, PartialEq, Eq, Structural, Debug)]
pub enum DocStatus {
    Pending,
    Processing,
    Done,
    Failed,
}

/// The textual form of a document status.
pub open spec fn doc_status_str(s: DocStatus) -> Seq<char> {
    match s {
        DocStatus::Pending => "pending"@,
        DocStatus::Processing => "processing"@,
        DocStatus::Done => "done"@,
        DocStatus::Failed => "failed"@,
    }
}

impl DocStatus {
    /// The status as text.
    pub fn as_str(&self) -> (r: &'static str)
        ensures
            r@ == doc_status_str(*self),
    {
        match self {
            DocStatus::Pending => "pending",
            DocStatus::Processing => "processing",
            DocStatus::Done => "done",
            DocStatus::Failed => "failed",
        }
    }

    /// Parses a status; unknown text is an error.
    pub fn parse(s: &str) -> (r: Result<DocStatus, String>)
        ensures
            match r {
                Result::Ok(st) => s@ == doc_status_str(st),
                Result::Err(_) => s@ != "pending"@ && s@ != "processing"@ && s@ != "done"@ && s@
                    != "failed"@,
            },
    {
        if str_eq(s, "pending") {
            Result::Ok(DocStatus::Pending)
        } else if str_eq(s, "processing") {
            Result::Ok(DocStatus::Processing)
        } else if str_eq(s, "done") {
            Result::Ok(DocStatus::Done)
        } else if str_eq(s, "failed") {
            Result::Ok(DocStatus::Failed)
        } else {
            Result::Err(String::from_str("unknown status"))
        }
    }
}

impl core::str::FromStr for DocStatus {
    type Err = String;

    fn from_str(s: &str) -> Result<DocStatus, String> {
        DocStatus::parse(s)
    }
}

/// Status of an ingest job.
#[derive(Clone, Copy, PartialEq, Eq, Structural, Debug)]
pub enum JobStatus {
    Pending,
    Processing,
    Done,
    Failed,
}

/// The textual form of a job status.
pub open spec fn job_status_str(s: JobStatus) -> Seq<char> {
    match s {
        JobStatus::Pending => "pending"@,
        JobStatus::Processing => "processing"@,
        JobStatus::Done => "done"@,
        JobStatus::Failed => "failed"@,
    }
}

impl JobStatus {
    /// The status as text.
    pub fn as_str(&self) -> (r: &'static str)
        ensures
            r@ == job_status_str(*self),
    {
        match self {
            JobStatus::Pending => "pending",
            JobStatus::Processing => "processing",
            JobStatus::Done => "done",
            JobStatus::Failed => "failed",
        }
    }

    /// Parses a status; unknown text is an error.
    pub fn parse(s: &str) -> (r: Result<JobStatus, String>)
        ensures
            match r {
                Result::Ok(st) => s@ == job_status_str(st),
                Result::Err(_) => s@ != "pending"@ && s@ != "processing"@ && s@ != "done"@ && s@
                    != "failed"@,
            },
    {
        if str_eq(s, "pending") {
            Result::Ok(JobStatus::Pending)
        } else if str_eq(s, "processing") {
            Result::Ok(JobStatus::Processing)
        } else if str_eq(s, "done") {
            Result::Ok(JobStatus::Done)
        } else if str_eq(s, "failed") {
            Result::Ok(JobStatus::Failed)
        } else {
            Result::Err(String::from_str("unknown status"))
        }
    }
}

impl core::str::FromStr for JobStatus {
    type Err = String;

    fn from_str(s: &str) -> Result<JobStatus, String> {
        JobStatus::parse(s)
    }
}

/// A document waiting in the job queue.
pub struct PendingDoc {
    pub id: String,
    pub job_id: String,
    pub source_id: String,
    pub title: Option<String>,
    pub content: String,
    pub file_path: Option<String>,
    pub status: DocStatus,
    pub error: Option<String>,
    pub created_at: String,
}

/// An ingest job with its aggregate counters.
pub struct Job {
    pub id: String,
    pub source_id: String,
    pub total_docs: u32,
    pub completed_docs: u32,
    pub failed_docs: u32,
    pub status: JobStatus,
    pub current_doc: Option<String>,
    pub created_at: String,
    pub completed_at: Option<String>,
}

/// Answer to queueing documents.
pub struct QueueResponse {
    pub job_id: String,
    pub docs_queued: u32,
    pub message: String,
}

/// Progress of one job.
pub struct JobProgress {
    pub job_id: String,
    pub source_id: String,
    pub status: JobStatus,
    pub total: u32,
    pub completed: u32,
    pub failed: u32,
    pub current_doc: Option<String>,
    pub created_at: String,
    pub completed_at: Option<String>,
}

} // verus!
