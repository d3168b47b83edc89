//! The content store: the authoritative text of documents and chunks, held
//! as plain rows. The surrounding application persists these rows; the store
//! itself guarantees what each operation returns and changes.

use vstd::prelude::*;

verus! {

/// One stored document with its full text.
pub struct DocumentRow {
    pub id: String,
    pub source_id: String,
    pub title: String,
    pub file_path: Option<String>,
    pub content: String,
    pub created_at: String,
}

/// One stored chunk body.
pub struct ChunkRow {
    pub id: String,
    pub document_id: String,
    pub content: String,
}

/// A copy of a document row, equal to the original.
pub fn clone_doc_row(r: &DocumentRow) -> (c: DocumentRow)
    ensures
        c == *r,
{
    DocumentRow {
        id: r.id.clone(),
        source_id: r.source_id.clone(),
        title: r.title.clone(),
        file_path: crate::db::clone_opt_exact(&r.file_path),
        content: r.content.clone(),
        created_at: r.created_at.clone(),
    }
}

/// A returned pair answers one of the requested ids.
pub open spec fn requested(ids: Seq<String>, p: (String, String)) -> bool {
    exists|k: int| 0 <= k < ids.len() && p.0@ == (#[trigger] ids[k])@
}

/// The id occurs in the list.
pub open spec fn id_among(ids: Seq<String>, x: Seq<char>) -> bool {
    exists|k: int| 0 <= k < ids.len() && (#[trigger] ids[k])@ == x
}

/// Whether the id occurs in the list.
fn id_among_exec(ids: &Vec<String>, x: &str) -> (r: bool)
    ensures
        r == id_among(ids@, x@),
{
    let n = ids.len();
    let mut k: usize = 0;
    while k < n
        invariant
            0 <= k <= n,
            n == ids@.len(),
            forall|j: int| 0 <= j < k ==> (#[trigger] ids@[j])@ != x@,
        decreases n - k,
    {
        if crate::textutil::str_eq(ids[k].as_str(), x) {
            return true;
        }
        k = k + 1;
    }
    false
}

/// The id occurs in the list of id texts.
pub open spec fn among(ids: Seq<Seq<char>>, x: Seq<char>) -> bool {
    exists|k: int| 0 <= k < ids.len() && #[trigger] ids[k] == x
}

/// The ids of one source's documents, in store order.
pub open spec fn source_doc_ids(docs: Seq<DocumentRow>, sid: Seq<char>) -> Seq<Seq<char>> {
    docs.filter(|d: DocumentRow| d.source_id@ == sid).map_values(|d: DocumentRow| d.id@)
}

/// Keeping the rows of every other source.
pub open spec fn keeps_other_sources(sid: Seq<char>) -> spec_fn(DocumentRow) -> bool {
    |d: DocumentRow| d.source_id@ != sid
}

/// Row-oriented store of document and chunk texts.
pub struct ContentStore {
    pub docs: Vec<DocumentRow>,
    pub chunks: Vec<ChunkRow>,
}

impl ContentStore {
    /// Some stored chunk row has this id.
    pub open spec fn has_chunk(self, id: Seq<char>) -> bool {
        exists|i: int| 0 <= i < self.chunks@.len() && (#[trigger] self.chunks@[i]).id@ == id
    }

    /// Some stored document row has this id.
    pub open spec fn has_doc(self, id: Seq<char>) -> bool {
        exists|i: int| 0 <= i < self.docs@.len() && (#[trigger] self.docs@[i]).id@ == id
    }

    /// A fresh, empty store.
    pub fn new() -> (r: Self)
        ensures
            r.docs@.len() == 0,
            r.chunks@.len() == 0,
    {
        ContentStore { docs: Vec::new(), chunks: Vec::new() }
    }

    /// Appends one document row.
    pub fn insert_document(&mut self, row: DocumentRow)
        ensures
            final(self).docs@ == old(self).docs@.push(row),
            final(self).chunks@ == old(self).chunks@,
    {
        self.docs.push(row);
    }

    /// Appends a batch of chunk rows.
    pub fn insert_chunks(&mut self, rows: Vec<ChunkRow>)
        ensures
            final(self).chunks@ == old(self).chunks@ + rows@,
            final(self).docs@ == old(self).docs@,
    {
        let mut rows = rows;
        let ghost all = rows@;
        let mut done: usize = 0;
        let n = rows.len();
        proof {
            assert(old(self).chunks@ + all.take(0) =~= old(self).chunks@);
        }
        while done < n
            invariant
                0 <= done <= n,
                n == all.len(),
                rows@ == all.skip(done as int),
                self.docs@ == old(self).docs@,
                self.chunks@ == old(self).chunks@ + all.take(done as int),
            decreases n - done,
        {
            let row = rows.remove(0);
            proof {
                assert(all.skip(done as int)[0] == all[done as int]);
                assert(all.skip(done as int).remove(0) =~= all.skip(done + 1));
                assert((old(self).chunks@ + all.take(done as int)).push(all[done as int]) =~= old(
                    self,
                ).chunks@ + all.take(done + 1));
            }
            self.chunks.push(row);
            done = done + 1;
        }
        proof {
            assert(all.take(n as int) =~= all);
        }
    }

    /// The text of a document, when it is stored.
    pub fn get_document(&self, doc_id: &str) -> (r: Option<String>)
        ensures
            match r {
                Option::Some(c) => exists|i: int|
                    0 <= i < self.docs@.len() && (#[trigger] self.docs@[i]).id@ == doc_id@
                        && self.docs@[i].content@ == c@,
                Option::None => !self.has_doc(doc_id@),
            },
    {
        let n = self.docs.len();
        let mut i: usize = 0;
        while i < n
            invariant
                0 <= i <= n,
                n == self.docs@.len(),
                forall|j: int| 0 <= j < i ==> (#[trigger] self.docs@[j]).id@ != doc_id@,
            decreases n - i,
        {
            if crate::textutil::str_eq(self.docs[i].id.as_str(), doc_id) {
                return Option::Some(self.docs[i].content.clone());
            }
            i = i + 1;
        }
        Option::None
    }

    /// The bodies of the requested chunks, in request order; ids that are
    /// not stored are left out, without error.
    #[verifier::loop_isolation(false)]
    #[verifier::rlimit(100)]
    pub fn get_chunks(&self, ids: &Vec<String>) -> (r: Vec<(String, String)>)
        ensures
            forall|m: int| 0 <= m < r@.len() ==> requested(ids@, #[trigger] r@[m]),
            forall|m: int| 0 <= m < r@.len() ==> self.chunk_entry_ok(#[trigger] r@[m]),
            forall|k: int|
                0 <= k < ids@.len() && self.has_chunk(#[trigger] ids@[k]@) ==> exists|m: int|
                    0 <= m < r@.len() && (#[trigger] r@[m]).0@ == ids@[k]@,
    {
        let nk = ids.len();
        let mut r: Vec<(String, String)> = Vec::new();
        let mut k: usize = 0;
        while k < nk
            invariant
                0 <= k <= nk,
                forall|m: int| 0 <= m < r@.len() ==> requested(ids@, #[trigger] r@[m]),
                forall|m: int| 0 <= m < r@.len() ==> self.chunk_entry_ok(#[trigger] r@[m]),
                forall|kk: int|
                    0 <= kk < k && self.has_chunk(#[trigger] ids@[kk]@) ==> exists|m: int|
                        0 <= m < r@.len() && (#[trigger] r@[m]).0@ == ids@[kk]@,
            decreases nk - k,
        {
            let n = self.chunks.len();
            let mut i: usize = 0;
            let mut found = false;
            while i < n && !found
                invariant
                    0 <= i <= n,
                    !found ==> forall|j: int|
                        0 <= j < i ==> (#[trigger] self.chunks@[j]).id@ != ids@[k as int]@,
                    found ==> i < n && self.chunks@[i as int].id@ == ids@[k as int]@,
                decreases n - i + (if found { 0int } else { 1 }),
            {
                if crate::textutil::str_eq(self.chunks[i].id.as_str(), ids[k].as_str()) {
                    found = true;
                } else {
                    i = i + 1;
                }
            }
            if found {
                let ghost pre = r@;
                let entry = (ids[k].clone(), self.chunks[i].content.clone());
                r.push(entry);
                proof {
                    assert(r@[r@.len() - 1] == entry);
                    assert(self.chunks@[i as int].id@ == entry.0@);
                    assert(self.chunks@[i as int].content@ == entry.1@);
                    assert(self.chunk_entry_ok(entry));
                    assert(requested(ids@, entry));
                    assert forall|kk: int|
                        0 <= kk < k + 1 && self.has_chunk(#[trigger] ids@[kk]@) implies exists|m: int|
                        0 <= m < r@.len() && (#[trigger] r@[m]).0@ == ids@[kk]@ by {
                        if kk < k {
                            let m = choose|m: int|
                                0 <= m < pre.len() && (#[trigger] pre[m]).0@ == ids@[kk]@;
                            assert(r@[m] == pre[m]);
                            assert(r@[m].0@ == ids@[kk]@);
                        } else {
                            assert(r@[r@.len() - 1].0@ == ids@[kk]@);
                        }
                    }
                }
            } else {
                proof {
                    assert(!self.has_chunk(ids@[k as int]@));
                }
            }
            k = k + 1;
        }
        r
    }

    /// One returned pair was asked for.
    pub open spec fn chunk_entry_ok(self, p: (String, String)) -> bool {
        exists|i: int|
            0 <= i < self.chunks@.len() && (#[trigger] self.chunks@[i]).id@ == p.0@
                && self.chunks@[i].content@ == p.1@
    }

    /// The text of one chunk, when it is stored.
    pub fn get_chunk(&self, id: &str) -> (r: Option<String>)
        ensures
            match r {
                Option::Some(c) => exists|i: int|
                    0 <= i < self.chunks@.len() && (#[trigger] self.chunks@[i]).id@ == id@
                        && self.chunks@[i].content@ == c@,
                Option::None => !self.has_chunk(id@),
            },
    {
        let n = self.chunks.len();
        let mut i: usize = 0;
        while i < n
            invariant
                0 <= i <= n,
                n == self.chunks@.len(),
                forall|j: int| 0 <= j < i ==> (#[trigger] self.chunks@[j]).id@ != id@,
            decreases n - i,
        {
            if crate::textutil::str_eq(self.chunks[i].id.as_str(), id) {
                return Option::Some(self.chunks[i].content.clone());
            }
            i = i + 1;
        }
        Option::None
    }

    /// All document rows, for export.
    pub fn get_all_documents_with_metadata(&self) -> (r: Vec<DocumentRow>)
        ensures
            r@ == self.docs@,
    {
        let n = self.docs.len();
        let mut r: Vec<DocumentRow> = Vec::new();
        let mut i: usize = 0;
        while i < n
            invariant
                0 <= i <= n,
                n == self.docs@.len(),
                r@ == self.docs@.take(i as int),
            decreases n - i,
        {
            r.push(clone_doc_row(&self.docs[i]));
            proof {
                assert(self.docs@.take(i as int).push(self.docs@[i as int]) =~= self.docs@.take(
                    i + 1,
                ));
            }
            i = i + 1;
        }
        proof {
            assert(self.docs@.take(n as int) =~= self.docs@);
        }
        r
    }

    /// How many documents are stored.
    pub fn count_documents(&self) -> (r: u64)
        requires
            self.docs@.len() < 0xFFFF_FFFF_FFFF_FFFF,
        ensures
            r as int == self.docs@.len(),
    {
        self.docs.len() as u64
    }

    /// Deletes one document and its chunk rows.
    pub fn delete_document(&mut self, doc_id: &str)
        ensures
            final(self).docs@ == old(self).docs@.filter(|d: DocumentRow| d.id@ != doc_id@),
            final(self).chunks@ == old(self).chunks@.filter(
                |c: ChunkRow| c.document_id@ != doc_id@,
            ),
    {
        let ghost orig_docs = self.docs@;
        let ghost orig_chunks = self.chunks@;
        let n = self.docs.len();
        let mut docs: Vec<DocumentRow> = Vec::new();
        let mut i: usize = 0;
        while i < n
            invariant
                0 <= i <= n,
                n == orig_docs.len(),
                self.docs@ == orig_docs.skip(i as int),
                self.chunks@ == orig_chunks,
                docs@ == orig_docs.take(i as int).filter(|d: DocumentRow| d.id@ != doc_id@),
            decreases n - i,
        {
            let d = self.docs.remove(0);
            proof {
                reveal(Seq::filter);
                assert(orig_docs.skip(i as int)[0] == orig_docs[i as int]);
                assert(orig_docs.skip(i as int).remove(0) =~= orig_docs.skip(i + 1));
                assert(orig_docs.take(i + 1).drop_last() =~= orig_docs.take(i as int));
                assert(orig_docs.take(i + 1).last() == orig_docs[i as int]);
            }
            if !crate::textutil::str_eq(d.id.as_str(), doc_id) {
                docs.push(d);
            }
            i = i + 1;
        }
        let m = self.chunks.len();
        let mut chunks: Vec<ChunkRow> = Vec::new();
        let mut k: usize = 0;
        while k < m
            invariant
                0 <= k <= m,
                m == orig_chunks.len(),
                self.chunks@ == orig_chunks.skip(k as int),
                chunks@ == orig_chunks.take(k as int).filter(
                    |c: ChunkRow| c.document_id@ != doc_id@,
                ),
            decreases m - k,
        {
            let c = self.chunks.remove(0);
            proof {
                reveal(Seq::filter);
                assert(orig_chunks.skip(k as int)[0] == orig_chunks[k as int]);
                assert(orig_chunks.skip(k as int).remove(0) =~= orig_chunks.skip(k + 1));
                assert(orig_chunks.take(k + 1).drop_last() =~= orig_chunks.take(k as int));
                assert(orig_chunks.take(k + 1).last() == orig_chunks[k as int]);
            }
            if !crate::textutil::str_eq(c.document_id.as_str(), doc_id) {
                chunks.push(c);
            }
            k = k + 1;
        }
        self.docs = docs;
        self.chunks = chunks;
        proof {
            assert(orig_docs.take(n as int) =~= orig_docs);
            assert(orig_chunks.take(m as int) =~= orig_chunks);
        }
    }

    /// Deletes exactly the given documents and their chunk rows; every other
    /// row is kept.
    #[verifier::loop_isolation(false)]
    pub fn delete_source(&mut self, doc_ids: &Vec<String>)
        ensures
            final(self).docs@ == old(self).docs@.filter(
                |d: DocumentRow| !id_among(doc_ids@, d.id@),
            ),
            final(self).chunks@ == old(self).chunks@.filter(
                |c: ChunkRow| !id_among(doc_ids@, c.document_id@),
            ),
    {
        let ghost orig_docs = self.docs@;
        let ghost orig_chunks = self.chunks@;
        let n = self.docs.len();
        let mut docs: Vec<DocumentRow> = Vec::new();
        let mut i: usize = 0;
        while i < n
            invariant
                0 <= i <= n,
                n == orig_docs.len(),
                self.docs@ == orig_docs.skip(i as int),
                self.chunks@ == orig_chunks,
                docs@ == orig_docs.take(i as int).filter(
                    |d: DocumentRow| !id_among(doc_ids@, d.id@),
                ),
            decreases n - i,
        {
            let d = self.docs.remove(0);
            proof {
                reveal(Seq::filter);
                assert(orig_docs.skip(i as int)[0] == orig_docs[i as int]);
                assert(orig_docs.skip(i as int).remove(0) =~= orig_docs.skip(i + 1));
                assert(orig_docs.take(i + 1).drop_last() =~= orig_docs.take(i as int));
                assert(orig_docs.take(i + 1).last() == orig_docs[i as int]);
            }
            if !id_among_exec(doc_ids, d.id.as_str()) {
                docs.push(d);
            }
            i = i + 1;
        }
        self.docs = docs;
        proof {
            assert(orig_docs.take(n as int) =~= orig_docs);
        }
        let m = self.chunks.len();
        let mut chunks: Vec<ChunkRow> = Vec::new();
        let mut k: usize = 0;
        while k < m
            invariant
                0 <= k <= m,
                m == orig_chunks.len(),
                self.chunks@ == orig_chunks.skip(k as int),
                self.docs@ == orig_docs.filter(|d: DocumentRow| !id_among(doc_ids@, d.id@)),
                chunks@ == orig_chunks.take(k as int).filter(
                    |c: ChunkRow| !id_among(doc_ids@, c.document_id@),
                ),
            decreases m - k,
        {
            let c = self.chunks.remove(0);
            proof {
                reveal(Seq::filter);
                assert(orig_chunks.skip(k as int)[0] == orig_chunks[k as int]);
                assert(orig_chunks.skip(k as int).remove(0) =~= orig_chunks.skip(k + 1));
                assert(orig_chunks.take(k + 1).drop_last() =~= orig_chunks.take(k as int));
                assert(orig_chunks.take(k + 1).last() == orig_chunks[k as int]);
            }
            if !id_among_exec(doc_ids, c.document_id.as_str()) {
                chunks.push(c);
            }
            k = k + 1;
        }
        self.chunks = chunks;
        proof {
            assert(orig_docs.take(n as int) =~= orig_docs);
            assert(orig_chunks.take(m as int) =~= orig_chunks);
        }
    }

    /// Deletes every document of a source, and their chunk rows: exactly the
    /// chunk rows whose document belongs to the source are removed.
    #[verifier::loop_isolation(false)]
    #[verifier::rlimit(100)]
    pub fn delete_source_by_source_id(&mut self, source_id: &str)
        ensures
            final(self).docs@ == old(self).docs@.filter(keeps_other_sources(source_id@)),
            final(self).chunks@ == old(self).chunks@.filter(
                (|c: ChunkRow| !among(source_doc_ids(old(self).docs@, source_id@), c.document_id@)),
            ),
    {
        let ghost orig_docs = self.docs@;
        let ghost psrc = (|d: DocumentRow| d.source_id@ == source_id@);
        // collect the ids first, then delete row by row
        let n = self.docs.len();
        let mut ids: Vec<String> = Vec::new();
        let mut i: usize = 0;
        proof {
            reveal(Seq::filter);
            assert(orig_docs.take(0).filter(psrc) =~= Seq::<DocumentRow>::empty());
            assert(ids@.map_values(|s: String| s@) =~= orig_docs.take(0).filter(psrc).map_values(
                |d: DocumentRow| d.id@,
            ));
        }
        while i < n
            invariant
                0 <= i <= n,
                ids@.map_values(|s: String| s@) == orig_docs.take(i as int).filter(
                    psrc,
                ).map_values(|d: DocumentRow| d.id@),
            decreases n - i,
        {
            proof {
                reveal(Seq::filter);
                assert(orig_docs.take(i + 1).drop_last() =~= orig_docs.take(i as int));
                assert(orig_docs.take(i + 1).last() == orig_docs[i as int]);
            }
            if crate::textutil::str_eq(self.docs[i].source_id.as_str(), source_id) {
                let id = self.docs[i].id.clone();
                let ghost pre = ids@;
                ids.push(id);
                proof {
                    assert(ids@.map_values(|s: String| s@) =~= pre.map_values(
                        |s: String| s@,
                    ).push(orig_docs[i as int].id@));
                    assert(orig_docs.take(i + 1).filter(psrc).map_values(|d: DocumentRow| d.id@)
                        =~= orig_docs.take(i as int).filter(psrc).map_values(
                        |d: DocumentRow| d.id@,
                    ).push(orig_docs[i as int].id@));
                }
            } else {
                proof {
                    assert(orig_docs.take(i + 1).filter(psrc) == orig_docs.take(
                        i as int,
                    ).filter(psrc));
                }
            }
            i = i + 1;
        }
        proof {
            assert(orig_docs.take(n as int) =~= orig_docs);
        }
        let ghost gids = ids@.map_values(|s: String| s@);
        proof {
            assert(gids == source_doc_ids(orig_docs, source_id@));
        }
        // remove the document rows of the source directly
        let ghost orig_chunks = self.chunks@;
        let mut docs: Vec<DocumentRow> = Vec::new();
        let mut j: usize = 0;
        while j < n
            invariant
                0 <= j <= n,
                self.docs@ == orig_docs.skip(j as int),
                self.chunks@ == orig_chunks,
                docs@ == orig_docs.take(j as int).filter(keeps_other_sources(source_id@)),
            decreases n - j,
        {
            let d = self.docs.remove(0);
            proof {
                reveal(Seq::filter);
                assert(orig_docs.skip(j as int)[0] == orig_docs[j as int]);
                assert(orig_docs.skip(j as int).remove(0) =~= orig_docs.skip(j + 1));
                assert(orig_docs.take(j + 1).drop_last() =~= orig_docs.take(j as int));
                assert(orig_docs.take(j + 1).last() == orig_docs[j as int]);
            }
            if !crate::textutil::str_eq(d.source_id.as_str(), source_id) {
                docs.push(d);
            }
            j = j + 1;
        }
        self.docs = docs;
        // and exactly their chunk rows
        let ghost pdrop = (|c: ChunkRow| !id_among(ids@, c.document_id@));
        let m = self.chunks.len();
        let mut chunks: Vec<ChunkRow> = Vec::new();
        let mut k: usize = 0;
        proof {
            reveal(Seq::filter);
            assert(orig_chunks.take(0).filter(pdrop) =~= Seq::<ChunkRow>::empty());
        }
        while k < m
            invariant
                0 <= k <= m,
                self.chunks@ == orig_chunks.skip(k as int),
                self.docs@ == orig_docs.filter(keeps_other_sources(source_id@)),
                chunks@ == orig_chunks.take(k as int).filter(pdrop),
            decreases m - k,
        {
            let c = self.chunks.remove(0);
            proof {
                reveal(Seq::filter);
                assert(orig_chunks.skip(k as int)[0] == orig_chunks[k as int]);
                assert(orig_chunks.skip(k as int).remove(0) =~= orig_chunks.skip(k + 1));
                assert(orig_chunks.take(k + 1).drop_last() =~= orig_chunks.take(k as int));
                assert(orig_chunks.take(k + 1).last() == orig_chunks[k as int]);
            }
            if !id_among_exec(&ids, c.document_id.as_str()) {
                chunks.push(c);
            }
            k = k + 1;
        }
        self.chunks = chunks;
        proof {
            assert(orig_docs.take(n as int) =~= orig_docs);
            assert(orig_chunks.take(m as int) =~= orig_chunks);
            let pfinal = (|c: ChunkRow| !among(source_doc_ids(orig_docs, source_id@),
                c.document_id@));
            assert forall|x: ChunkRow| #[trigger] pdrop(x) == pfinal(x) by {
                if id_among(ids@, x.document_id@) {
                    let w = choose|w: int|
                        0 <= w < ids@.len() && (#[trigger] ids@[w])@ == x.document_id@;
                    assert(gids[w] == ids@[w]@);
                    assert(among(gids, x.document_id@));
                }
                if among(gids, x.document_id@) {
                    let w = choose|w: int|
                        0 <= w < gids.len() && #[trigger] gids[w] == x.document_id@;
                    assert(gids[w] == ids@[w]@);
                    assert(id_among(ids@, x.document_id@));
                }
            }
            assert(pdrop =~= pfinal);
            assert(self.chunks@ == orig_chunks.filter(pfinal));
        }
    }

    /// Drops every row.
    pub fn reset(&mut self)
        ensures
            final(self).docs@.len() == 0,
            final(self).chunks@.len() == 0,
    {
        self.docs.clear();
        self.chunks.clear();
    }
}

} // verus!
