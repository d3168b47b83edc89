//! The ingest job queue: per-document rows with a status, and per-job
//! aggregate counters recomputed from the rows on every status change.
//!
//! Timestamps are opaque texts supplied by the caller; cleanup compares them
//! lexicographically, which orders equal-length UTC timestamps by time. A
//! document found in the processing state after a restart is reset to
//! pending by `recover`.

use crate::outside::new_uuid;
use crate::types::{DocStatus, DocumentInput, Job, JobStatus, PendingDoc};
use vstd::prelude::*;
use vstd::string::StringExecFns;

verus! {

/// How many documents of the job have the given status.
pub open spec fn count_docs_with(docs: Seq<PendingDoc>, job_id: Seq<char>, st: DocStatus) -> int
    decreases docs.len(),
{
    if docs.len() == 0 {
        0
    } else {
        count_docs_with(docs.drop_last(), job_id, st) + if docs.last().job_id@ == job_id
            && docs.last().status == st {
            1int
        } else {
            0
        }
    }
}

/// A job's counters agree with its document rows, and a finished job carries
/// the right final status: done when nothing failed, failed otherwise.
pub open spec fn job_counters_ok(docs: Seq<PendingDoc>, j: Job) -> bool {
    &&& j.completed_docs as int == count_docs_with(docs, j.id@, DocStatus::Done)
    &&& j.failed_docs as int == count_docs_with(docs, j.id@, DocStatus::Failed)
    &&& (j.completed_docs as int + j.failed_docs as int == j.total_docs as int && j.total_docs > 0
        ==> (if j.failed_docs == 0 {
        j.status == JobStatus::Done
    } else {
        j.status == JobStatus::Failed
    }))
}

/// The first document row with the id was set to the status (with the
/// error recorded); every other row is unchanged.
pub open spec fn doc_row_updated(
    docs0: Seq<PendingDoc>,
    docs1: Seq<PendingDoc>,
    doc_id: Seq<char>,
    st: DocStatus,
    error: Option<String>,
) -> bool {
    exists|i: int|
        0 <= i < docs0.len() && (#[trigger] docs0[i]).id@ == doc_id && (forall|j: int|
            0 <= j < i ==> (#[trigger] docs0[j]).id@ != doc_id) && docs1 == docs0.update(
            i,
            PendingDoc { status: st, error, ..docs0[i] },
        )
}

/// The job id of the first document row carrying the id.
pub open spec fn row_job_of(docs: Seq<PendingDoc>, doc_id: Seq<char>) -> Seq<char> {
    docs[choose|i: int|
        0 <= i < docs.len() && (#[trigger] docs[i]).id@ == doc_id && (forall|j: int|
            0 <= j < i ==> (#[trigger] docs[j]).id@ != doc_id)].job_id@
}

/// A job with its counters recomputed from the document rows, and its final
/// status set once every document is done or failed.
pub open spec fn job_recomputed(j: Job, docs: Seq<PendingDoc>) -> Job {
    let d = count_docs_with(docs, j.id@, DocStatus::Done);
    let f = count_docs_with(docs, j.id@, DocStatus::Failed);
    Job {
        completed_docs: d as u32,
        failed_docs: f as u32,
        status: if j.total_docs > 0 && d + f == j.total_docs as int {
            if f == 0 {
                JobStatus::Done
            } else {
                JobStatus::Failed
            }
        } else {
            j.status
        },
        ..j
    }
}

/// What a status change guarantees: when no row carries the id, nothing
/// changes; otherwise the first matching row is updated and exactly the jobs
/// with that row's job id are recomputed against the new rows.
pub open spec fn status_change_post(
    q0: JobQueue,
    q1: JobQueue,
    doc_id: Seq<char>,
    st: DocStatus,
    error: Option<String>,
) -> bool {
    if exists|i: int| 0 <= i < q0.docs@.len() && (#[trigger] q0.docs@[i]).id@ == doc_id {
        &&& doc_row_updated(q0.docs@, q1.docs@, doc_id, st, error)
        &&& q1.jobs@.len() == q0.jobs@.len()
        &&& forall|m: int|
            0 <= m < q0.jobs@.len() ==> #[trigger] q1.jobs@[m] == (if q0.jobs@[m].id@
                == row_job_of(q0.docs@, doc_id) {
                job_recomputed(q0.jobs@[m], q1.docs@)
            } else {
                q0.jobs@[m]
            })
    } else {
        q1.docs@ == q0.docs@ && q1.jobs@ == q0.jobs@
    }
}

/// A copy of an optional error text, equal to the original.
fn clone_opt_exact_err(o: &Option<String>) -> (r: Option<String>)
    ensures
        r == *o,
{
    match o {
        Option::Some(s) => Option::Some(s.clone()),
        Option::None => Option::None,
    }
}

/// The persistent queue of pending documents.
pub struct JobQueue {
    pub jobs: Vec<Job>,
    pub docs: Vec<PendingDoc>,
}

impl JobQueue {
    /// A fresh, empty queue.
    pub fn new() -> (r: Self)
        ensures
            r.jobs@.len() == 0,
            r.docs@.len() == 0,
    {
        JobQueue { jobs: Vec::new(), docs: Vec::new() }
    }

    /// Queues a batch of documents under a fresh job and returns the job id.
    /// The job starts pending with zeroed counters; every document row starts
    /// pending.
    pub fn queue_documents(
        &mut self,
        source_id: &str,
        documents: Vec<DocumentInput>,
        created_at: String,
    ) -> (job_id: String)
        requires
            old(self).docs@.len() + documents@.len() < 0xFFFF_FFFF,
            documents@.len() < 0xFFFF_FFFF,
        ensures
            final(self).jobs@.len() == old(self).jobs@.len() + 1,
            final(self).jobs@.last().id@ == job_id@,
            final(self).jobs@.last().status == JobStatus::Pending,
            final(self).jobs@.last().total_docs as int == documents@.len(),
            final(self).jobs@.last().completed_docs == 0,
            final(self).jobs@.last().failed_docs == 0,
            final(self).docs@.len() == old(self).docs@.len() + documents@.len(),
            forall|i: int|
                old(self).docs@.len() <= i < final(self).docs@.len()
                    ==> (#[trigger] final(self).docs@[i]).status == DocStatus::Pending
                    && final(self).docs@[i].job_id@ == job_id@,
            forall|i: int|
                0 <= i < old(self).docs@.len()
                    ==> #[trigger] final(self).docs@[i] == old(self).docs@[i],
    {
        let job_id = new_uuid();
        let n = documents.len();
        let mut documents = documents;
        let ghost all = documents@;
        let ghost docs0 = self.docs@;
        let mut k: usize = 0;
        while k < n
            invariant
                0 <= k <= n,
                n == all.len(),
                documents@ == all.skip(k as int),
                self.docs@.len() == docs0.len() + k,
                self.jobs@ == old(self).jobs@,
                forall|i: int| 0 <= i < docs0.len() ==> #[trigger] self.docs@[i] == docs0[i],
                forall|i: int|
                    docs0.len() <= i < self.docs@.len() ==> (#[trigger] self.docs@[i]).status
                        == DocStatus::Pending && self.docs@[i].job_id@ == job_id@,
            decreases n - k,
        {
            let d = documents.remove(0);
            proof {
                assert(all.skip(k as int).remove(0) =~= all.skip(k + 1));
            }
            self.docs.push(
                PendingDoc {
                    id: new_uuid(),
                    job_id: job_id.clone(),
                    source_id: String::from_str(source_id),
                    title: d.title,
                    content: d.content,
                    file_path: d.file_path,
                    status: DocStatus::Pending,
                    error: Option::None,
                    created_at: created_at.clone(),
                },
            );
            k = k + 1;
        }
        self.jobs.push(
            Job {
                id: job_id.clone(),
                source_id: String::from_str(source_id),
                total_docs: n as u32,
                completed_docs: 0,
                failed_docs: 0,
                status: JobStatus::Pending,
                current_doc: Option::None,
                created_at,
                completed_at: Option::None,
            },
        );
        job_id
    }

    /// Atomically takes the first pending document: it is marked processing
    /// and returned; nothing is returned when no document is pending.
    pub fn get_next_pending(&mut self) -> (r: Option<PendingDoc>)
        ensures
            final(self).jobs@ == old(self).jobs@,
            match r {
                Option::Some(d) => exists|i: int|
                    0 <= i < old(self).docs@.len() && (#[trigger] old(self).docs@[i]).status
                        == DocStatus::Pending && d.id@ == old(self).docs@[i].id@
                        && final(self).docs@ == old(self).docs@.update(
                        i,
                        PendingDoc { status: DocStatus::Processing, ..old(self).docs@[i] },
                    ) && d.status == DocStatus::Processing,
                Option::None => final(self).docs@ == old(self).docs@ && forall|i: int|
                    0 <= i < old(self).docs@.len() ==> (#[trigger] old(self).docs@[i]).status
                        != DocStatus::Pending,
            },
    {
        let n = self.docs.len();
        let mut i: usize = 0;
        while i < n
            invariant
                0 <= i <= n,
                n == self.docs@.len(),
                self.docs@ == old(self).docs@,
                self.jobs@ == old(self).jobs@,
                forall|j: int|
                    0 <= j < i ==> (#[trigger] self.docs@[j]).status != DocStatus::Pending,
            decreases n - i,
        {
            if self.docs[i].status == DocStatus::Pending {
                let ghost pre = self.docs@;
                let mut d = self.docs.remove(i);
                d.status = DocStatus::Processing;
                let out = clone_pending_doc(&d);
                self.docs.insert(i, d);
                proof {
                    assert(self.docs@ =~= pre.update(
                        i as int,
                        PendingDoc { status: DocStatus::Processing, ..pre[i as int] },
                    ));
                }
                return Option::Some(out);
            }
            i = i + 1;
        }
        Option::None
    }

    /// Recovery after a restart: every document stuck in the processing state
    /// is reset to pending, so it will be picked up again.
    pub fn recover(&mut self)
        ensures
            final(self).jobs@ == old(self).jobs@,
            final(self).docs@.len() == old(self).docs@.len(),
            forall|i: int|
                0 <= i < old(self).docs@.len() ==> #[trigger] final(self).docs@[i] == (
                if old(self).docs@[i].status == DocStatus::Processing {
                    PendingDoc { status: DocStatus::Pending, ..old(self).docs@[i] }
                } else {
                    old(self).docs@[i]
                }),
    {
        let n = self.docs.len();
        let mut i: usize = 0;
        while i < n
            invariant
                0 <= i <= n,
                n == self.docs@.len(),
                self.jobs@ == old(self).jobs@,
                forall|j: int|
                    i <= j < n ==> #[trigger] self.docs@[j] == old(self).docs@[j],
                forall|j: int|
                    0 <= j < i ==> #[trigger] self.docs@[j] == (if old(self).docs@[j].status
                        == DocStatus::Processing {
                        PendingDoc { status: DocStatus::Pending, ..old(self).docs@[j] }
                    } else {
                        old(self).docs@[j]
                    }),
            decreases n - i,
        {
            if self.docs[i].status == DocStatus::Processing {
                let ghost pre = self.docs@;
                let mut d = self.docs.remove(i);
                d.status = DocStatus::Pending;
                self.docs.insert(i, d);
                proof {
                    assert(self.docs@ =~= pre.update(
                        i as int,
                        PendingDoc { status: DocStatus::Pending, ..pre[i as int] },
                    ));
                }
            }
            i = i + 1;
        }
    }

    /// Marks a document done and recomputes its job's counters.
    pub fn mark_completed(&mut self, doc_id: &str)
        requires
            old(self).docs@.len() < 0xFFFF_FFFF,
        ensures
            status_change_post(*old(self), *final(self), doc_id@, DocStatus::Done, Option::None),
    {
        self.set_doc_status(doc_id, DocStatus::Done, Option::None);
    }

    /// Marks a document failed, records the error, and recomputes its job's
    /// counters.
    pub fn mark_failed(&mut self, doc_id: &str, error: String)
        requires
            old(self).docs@.len() < 0xFFFF_FFFF,
        ensures
            status_change_post(
                *old(self),
                *final(self),
                doc_id@,
                DocStatus::Failed,
                Option::Some(error),
            ),
    {
        self.set_doc_status(doc_id, DocStatus::Failed, Option::Some(error));
    }

    /// Sets the status of the first document with the id, then recomputes the
    /// parent job's counters and final status from the rows; every other row
    /// and job is unchanged.
    #[verifier::loop_isolation(false)]
    #[verifier::rlimit(100)]
    fn set_doc_status(&mut self, doc_id: &str, st: DocStatus, error: Option<String>)
        requires
            old(self).docs@.len() < 0xFFFF_FFFF,
        ensures
            status_change_post(*old(self), *final(self), doc_id@, st, error),
    {
        let n = self.docs.len();
        let mut i: usize = 0;
        let mut job_id: Option<String> = Option::None;
        while i < n
            invariant
                0 <= i <= n,
                n == self.docs@.len(),
                self.docs@ == old(self).docs@,
                self.jobs@ == old(self).jobs@,
                job_id is None,
                forall|j: int| 0 <= j < i ==> (#[trigger] self.docs@[j]).id@ != doc_id@,
            decreases n - i,
        {
            if crate::textutil::str_eq(self.docs[i].id.as_str(), doc_id) {
                let ghost pre = self.docs@;
                let mut d = self.docs.remove(i);
                d.status = st;
                d.error = clone_opt_exact_err(&error);
                job_id = Option::Some(d.job_id.clone());
                self.docs.insert(i, d);
                proof {
                    assert(self.docs@ =~= pre.update(
                        i as int,
                        PendingDoc { status: st, error, ..pre[i as int] },
                    ));
                    assert(doc_row_updated(old(self).docs@, self.docs@, doc_id@, st, error));
                }
                break ;
            }
            i = i + 1;
        }
        let jid = match job_id {
            Option::Some(j) => j,
            Option::None => {
                proof {
                    assert(forall|j: int|
                        0 <= j < old(self).docs@.len() ==> (#[trigger] old(self).docs@[j]).id@
                            != doc_id@);
                }
                return ;
            },
        };
        proof {
            assert(row_job_of(old(self).docs@, doc_id@) == jid@);
        }
        // recompute the parent job's counters from the rows
        let nj = self.jobs.len();
        let mut k: usize = 0;
        while k < nj
            invariant
                0 <= k <= nj,
                nj == self.jobs@.len(),
                self.jobs@.len() == old(self).jobs@.len(),
                doc_row_updated(old(self).docs@, self.docs@, doc_id@, st, error),
                self.docs@.len() == old(self).docs@.len(),
                forall|m: int|
                    0 <= m < k ==> #[trigger] self.jobs@[m] == (if old(self).jobs@[m].id@ == jid@ {
                        job_recomputed(old(self).jobs@[m], self.docs@)
                    } else {
                        old(self).jobs@[m]
                    }),
                forall|m: int|
                    k <= m < nj ==> #[trigger] self.jobs@[m] == old(self).jobs@[m],
            decreases nj - k,
        {
            if crate::textutil::str_eq(self.jobs[k].id.as_str(), jid.as_str()) {
                let done = self.count_status(self.jobs[k].id.as_str(), DocStatus::Done);
                let failed = self.count_status(self.jobs[k].id.as_str(), DocStatus::Failed);
                let ghost pre_jobs = self.jobs@;
                let mut j = self.jobs.remove(k);
                j.completed_docs = done;
                j.failed_docs = failed;
                if j.total_docs > 0 && done as u64 + failed as u64 == j.total_docs as u64 {
                    j.status = if failed == 0 {
                        JobStatus::Done
                    } else {
                        JobStatus::Failed
                    };
                }
                self.jobs.insert(k, j);
                proof {
                    assert(self.jobs@ =~= pre_jobs.update(
                        k as int,
                        job_recomputed(pre_jobs[k as int], self.docs@),
                    ));
                }
            }
            k = k + 1;
        }
    }

    /// How many documents of the job have the status.
    /// How many documents of the job have the status.
    fn count_status(&self, job_id: &str, st: DocStatus) -> (r: u32)
        requires
            self.docs@.len() < 0xFFFF_FFFF,
        ensures
            r as int == count_docs_with(self.docs@, job_id@, st),
    {
        let n = self.docs.len();
        let mut r: u32 = 0;
        let mut i: usize = 0;
        proof {
            assert(self.docs@.take(0) =~= Seq::<PendingDoc>::empty());
        }
        while i < n
            invariant
                0 <= i <= n,
                n == self.docs@.len(),
                n < 0xFFFF_FFFF,
                r as int == count_docs_with(self.docs@.take(i as int), job_id@, st),
                r as int <= i,
            decreases n - i,
        {
            proof {
                assert(self.docs@.take(i + 1).drop_last() =~= self.docs@.take(i as int));
                assert(self.docs@.take(i + 1).last() == self.docs@[i as int]);
            }
            if crate::textutil::str_eq(self.docs[i].job_id.as_str(), job_id) && self.docs[i].status
                == st {
                r = r + 1;
            }
            i = i + 1;
        }
        proof {
            assert(self.docs@.take(n as int) =~= self.docs@);
        }
        r
    }

    /// The job with the id, when it exists.
    pub fn get_job(&self, job_id: &str) -> (r: Option<Job>)
        ensures
            match r {
                Option::Some(j) => exists|k: int|
                    0 <= k < self.jobs@.len() && #[trigger] self.jobs@[k] == j && j.id@ == job_id@,
                Option::None => forall|k: int|
                    0 <= k < self.jobs@.len() ==> (#[trigger] self.jobs@[k]).id@ != job_id@,
            },
    {
        let n = self.jobs.len();
        let mut i: usize = 0;
        while i < n
            invariant
                0 <= i <= n,
                n == self.jobs@.len(),
                forall|k: int| 0 <= k < i ==> (#[trigger] self.jobs@[k]).id@ != job_id@,
            decreases n - i,
        {
            if crate::textutil::str_eq(self.jobs[i].id.as_str(), job_id) {
                return Option::Some(clone_job(&self.jobs[i]));
            }
            i = i + 1;
        }
        Option::None
    }

    /// All jobs, in creation order.
    pub fn list_jobs(&self) -> (r: Vec<Job>)
        ensures
            r@ == self.jobs@,
    {
        let n = self.jobs.len();
        let mut r: Vec<Job> = Vec::new();
        let mut i: usize = 0;
        while i < n
            invariant
                0 <= i <= n,
                n == self.jobs@.len(),
                r@ == self.jobs@.take(i as int),
            decreases n - i,
        {
            r.push(clone_job(&self.jobs[i]));
            proof {
                assert(self.jobs@.take(i as int).push(self.jobs@[i as int]) =~= self.jobs@.take(
                    i + 1,
                ));
            }
            i = i + 1;
        }
        proof {
            assert(self.jobs@.take(n as int) =~= self.jobs@);
        }
        r
    }

    /// The document rows of a job, in order.
    pub fn get_job_docs(&self, job_id: &str) -> (r: Vec<PendingDoc>)
        ensures
            r@ == self.docs@.filter(|d: PendingDoc| d.job_id@ == job_id@),
    {
        let n = self.docs.len();
        let mut r: Vec<PendingDoc> = Vec::new();
        let mut i: usize = 0;
        proof {
            reveal(Seq::filter);
            assert(self.docs@.take(0) =~= Seq::<PendingDoc>::empty());
        }
        while i < n
            invariant
                0 <= i <= n,
                n == self.docs@.len(),
                r@ == self.docs@.take(i as int).filter(|d: PendingDoc| d.job_id@ == job_id@),
            decreases n - i,
        {
            proof {
                reveal(Seq::filter);
                assert(self.docs@.take(i + 1).drop_last() =~= self.docs@.take(i as int));
                assert(self.docs@.take(i + 1).last() == self.docs@[i as int]);
            }
            if crate::textutil::str_eq(self.docs[i].job_id.as_str(), job_id) {
                r.push(clone_pending_doc(&self.docs[i]));
            }
            i = i + 1;
        }
        proof {
            assert(self.docs@.take(n as int) =~= self.docs@);
        }
        r
    }

    /// Drops every finished job whose completion time lies before the
    /// cutoff, together with its document rows. The caller computes the
    /// cutoff (now minus the time to live) as a timestamp text.
    pub fn cleanup_old_jobs(&mut self, cutoff: &str)
        ensures
            final(self).jobs@ == old(self).jobs@.filter(
                |j: Job| !job_expired(j, cutoff@),
            ),
    {
        let ghost orig = self.jobs@;
        let n = self.jobs.len();
        let mut kept: Vec<Job> = Vec::new();
        let mut dropped_ids: Vec<String> = Vec::new();
        let mut i: usize = 0;
        while i < n
            invariant
                0 <= i <= n,
                n == orig.len(),
                self.jobs@ == orig.skip(i as int),
                kept@ == orig.take(i as int).filter(|j: Job| !job_expired(j, cutoff@)),
            decreases n - i,
        {
            let j = self.jobs.remove(0);
            proof {
                reveal(Seq::filter);
                assert(orig.skip(i as int)[0] == orig[i as int]);
                assert(orig.skip(i as int).remove(0) =~= orig.skip(i + 1));
                assert(orig.take(i + 1).drop_last() =~= orig.take(i as int));
                assert(orig.take(i + 1).last() == orig[i as int]);
            }
            let finished = match j.status {
                JobStatus::Done => true,
                JobStatus::Failed => true,
                _ => false,
            };
            let expired = finished && match &j.completed_at {
                Option::Some(t) => crate::textutil::str_lt(t.as_str(), cutoff),
                Option::None => false,
            };
            proof {
                assert(expired == job_expired(orig[i as int], cutoff@));
            }
            if expired {
                dropped_ids.push(j.id);
            } else {
                kept.push(j);
            }
            i = i + 1;
        }
        self.jobs = kept;
        proof {
            assert(orig.take(n as int) =~= orig);
        }
        // drop the document rows of the expired jobs
        let nd = dropped_ids.len();
        let mut k: usize = 0;
        while k < nd
            invariant
                0 <= k <= nd,
                nd == dropped_ids@.len(),
                self.jobs@ == orig.filter(|j: Job| !job_expired(j, cutoff@)),
            decreases nd - k,
        {
            self.remove_docs_of(dropped_ids[k].as_str());
            k = k + 1;
        }
    }

    /// Removes every document row of the job.
    fn remove_docs_of(&mut self, job_id: &str)
        ensures
            final(self).jobs@ == old(self).jobs@,
            final(self).docs@ == old(self).docs@.filter(|d: PendingDoc| d.job_id@ != job_id@),
    {
        let ghost orig = self.docs@;
        let n = self.docs.len();
        let mut kept: Vec<PendingDoc> = Vec::new();
        let mut i: usize = 0;
        while i < n
            invariant
                0 <= i <= n,
                n == orig.len(),
                self.docs@ == orig.skip(i as int),
                self.jobs@ == old(self).jobs@,
                kept@ == orig.take(i as int).filter(|d: PendingDoc| d.job_id@ != job_id@),
            decreases n - i,
        {
            let d = self.docs.remove(0);
            proof {
                reveal(Seq::filter);
                assert(orig.skip(i as int)[0] == orig[i as int]);
                assert(orig.skip(i as int).remove(0) =~= orig.skip(i + 1));
                assert(orig.take(i + 1).drop_last() =~= orig.take(i as int));
                assert(orig.take(i + 1).last() == orig[i as int]);
            }
            if !crate::textutil::str_eq(d.job_id.as_str(), job_id) {
                kept.push(d);
            }
            i = i + 1;
        }
        self.docs = kept;
        proof {
            assert(orig.take(n as int) =~= orig);
        }
    }
}

/// A finished job whose completion time lies before the cutoff.
pub open spec fn job_expired(j: Job, cutoff: Seq<char>) -> bool {
    (j.status == JobStatus::Done || j.status == JobStatus::Failed) && match j.completed_at {
        Option::Some(t) => crate::textutil::lex_lt(t@, cutoff),
        Option::None => false,
    }
}

/// A copy of a pending document, equal to the original.
pub fn clone_pending_doc(d: &PendingDoc) -> (r: PendingDoc)
    ensures
        r == *d,
{
    PendingDoc {
        id: d.id.clone(),
        job_id: d.job_id.clone(),
        source_id: d.source_id.clone(),
        title: crate::db::clone_opt_exact(&d.title),
        content: d.content.clone(),
        file_path: crate::db::clone_opt_exact(&d.file_path),
        status: d.status,
        error: crate::db::clone_opt_exact(&d.error),
        created_at: d.created_at.clone(),
    }
}

/// A copy of a job, equal to the original.
pub fn clone_job(j: &Job) -> (r: Job)
    ensures
        r == *j,
{
    Job {
        id: j.id.clone(),
        source_id: j.source_id.clone(),
        total_docs: j.total_docs,
        completed_docs: j.completed_docs,
        failed_docs: j.failed_docs,
        status: j.status,
        current_doc: crate::db::clone_opt_exact(&j.current_doc),
        created_at: j.created_at.clone(),
        completed_at: crate::db::clone_opt_exact(&j.completed_at),
    }
}

} // verus!
