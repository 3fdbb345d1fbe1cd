//! The façade over the storage and retrieval backend: it owns the file
//! repository, the metadata store with its search-index model, the
//! tagger and the id allocator, and routes every mutation through one
//! exclusive handle. Content hashing, deduplication, id allocation,
//! classification and persistence ordering all happen here; the caller
//! reads files, runs the extraction commands and rewrites the on-disk
//! state the façade hands back.

use vstd::prelude::*;
use crate::DocId;
use crate::TagId;
use crate::content::ContentExtractor;
use crate::document::{
    DocumentData, DocView, ExtractedView, DocumentRepositoryError, FilterOptions, view_opt_string,
};
use crate::file_extractor::{FileExtractor, FileExtractError, spec_file_hash};
use crate::file_repository::{
    LocalFileRepository, FileRepositoryError, repo_upsert, repo_remove, repo_wf, repo_contains,
    repo_get, spec_doc_path,
};
use crate::id_allocator::{IdAllocator, IdAllocatorError};
use crate::metadata_store::{
    MetadataStore, docs_remove, docs_view, docs_unique_ids, docs_unique_hashes, spec_get,
    spec_contains_hash, hash_free_for,
};
use crate::search_index::{ids_remove, ids_unique};
use crate::tagger::{
    Tagger, TagConfig, TagsView, TaggingError, tags_wf, matching_tags, spec_tagged, tags_view,
    spec_tag_get, tags_remove,
};
use crate::text::{spec_file_name, spec_u64_string};

verus! {

/// An error of the index façade.
#[derive(Debug, Clone)]
pub enum IndexError {
    FileRepoError(FileRepositoryError),
    DocRepoError(DocumentRepositoryError),
    TaggerError(TaggingError),
    PDFError,
    LockError(String),
    IOError(String),
    OSStringError,
    IDError(IdAllocatorError),
    FileExtractorError(FileExtractError),
    /// The loaded components disagree: a stored record's id is above
    /// the allocator, or has no file behind it.
    InconsistentState,
}

/// The mathematical view of the whole index.
#[verifier::ext_equal]
pub ghost struct IndexView {
    /// The directory document files live under.
    pub file_dir: Seq<char>,
    /// The file registry: id to stored path.
    pub files: Seq<(DocId, Seq<char>)>,
    /// The stored records, in storage order.
    pub docs: Seq<DocView>,
    /// The ids the search index holds.
    pub search: Seq<DocId>,
    /// The tag configuration.
    pub tags: TagsView,
    /// The last allocated document id.
    pub curr_id: u64,
}

/// The index-wide invariant: each component well formed, every stored
/// record's id at or below the allocator, and every stored record
/// backed by a registered file.
pub open spec fn view_inv(v: IndexView) -> bool {
    &&& docs_unique_ids(v.docs)
    &&& docs_unique_hashes(v.docs)
    &&& ids_unique(v.search)
    &&& forall|i: int| 0 <= i < v.search.len() ==> spec_get(v.docs, #[trigger] v.search[i]) is Some
    &&& repo_wf(v.files)
    &&& tags_wf(v.tags)
    &&& forall|i: int| 0 <= i < v.docs.len() ==> (#[trigger] v.docs[i]).id <= v.curr_id
    &&& forall|i: int|
        0 <= i < v.docs.len() ==> repo_contains(v.files, (#[trigger] v.docs[i]).id)
}

/// The record a fresh import builds, before classification.
pub open spec fn fresh_doc(
    path: Seq<char>,
    bytes: Seq<u8>,
    body: Option<Seq<char>>,
    now: i64,
    id: DocId,
) -> DocView {
    DocView {
        id,
        original_filename: spec_file_name(path),
        title: spec_file_name(path),
        body,
        tags: Seq::empty(),
        imported_date: now,
        hash: spec_file_hash(bytes),
        file_size: bytes.len() as u64,
        language: None,
        extracted: ExtractedView {
            phone: Seq::empty(),
            email: Seq::empty(),
            link: Seq::empty(),
            iban: Seq::empty(),
            doc_date: None,
        },
    }
}

/// What a record becomes when classified against a body, or stays when
/// there is none.
pub open spec fn classified(tags: TagsView, d: DocView, body: Option<Seq<char>>) -> DocView {
    match body {
        Some(b) => spec_tagged(d, b, matching_tags(tags.tags, b)->Ok_0),
        None => d,
    }
}

/// The successful fresh-import transition: the next id is allocated,
/// the file registered under its canonical path, the classified record
/// stored body-free, and the search index brought in line.
pub open spec fn spec_import_fresh(
    pre: IndexView,
    path: Seq<char>,
    bytes: Seq<u8>,
    body: Option<Seq<char>>,
    now: i64,
    post: IndexView,
    r: DocId,
) -> bool {
    let id = (pre.curr_id + 1) as u64;
    let tagged = classified(pre.tags, fresh_doc(path, bytes, body, now, id), body);
    &&& r == id
    &&& post.curr_id == id
    &&& post.docs == docs_remove(pre.docs, id).push(crate::document::spec_persisted(tagged))
    &&& post.files == repo_upsert(pre.files, id, spec_doc_path(pre.file_dir, id))
    &&& post.search == (if body is Some {
        ids_remove(pre.search, id).push(id)
    } else {
        ids_remove(pre.search, id)
    })
    &&& post.tags == pre.tags
    &&& post.file_dir == pre.file_dir
}

/// A record reset for reprocessing: tags cleared, the inferred date
/// cleared, the new body in place.
pub open spec fn spec_reprocess_doc(d0: DocView, body: Option<Seq<char>>) -> DocView {
    DocView {
        tags: Seq::empty(),
        body,
        extracted: ExtractedView { doc_date: None, ..d0.extracted },
        ..d0
    }
}

/// The successful reprocess transition: the stored record is replaced
/// by its re-classified reset, and the search index brought in line.
pub open spec fn spec_reprocess_ok(
    pre: IndexView,
    id: DocId,
    d0: DocView,
    body: Option<Seq<char>>,
    post: IndexView,
) -> bool {
    let tagged = classified(pre.tags, spec_reprocess_doc(d0, body), body);
    &&& post.docs == docs_remove(pre.docs, id).push(crate::document::spec_persisted(tagged))
    &&& post.search == (if body is Some {
        ids_remove(pre.search, id).push(id)
    } else {
        ids_remove(pre.search, id)
    })
    &&& post.files == pre.files
    &&& post.tags == pre.tags
    &&& post.curr_id == pre.curr_id
    &&& post.file_dir == pre.file_dir
}

/// Whether loaded components agree: every stored record's id at or
/// below the allocator and backed by a registered file.
pub open spec fn parts_consistent(
    files: Seq<(DocId, Seq<char>)>,
    docs: Seq<DocView>,
    curr_id: u64,
) -> bool {
    &&& forall|i: int| 0 <= i < docs.len() ==> (#[trigger] docs[i]).id <= curr_id
    &&& forall|i: int| 0 <= i < docs.len() ==> repo_contains(files, (#[trigger] docs[i]).id)
}

/// The index façade: the single writer over the storage backend.
pub struct Index {
    file_repo: LocalFileRepository,
    doc_repo: MetadataStore,
    tagger: Tagger,
    extractor: ContentExtractor,
    id_alloc: IdAllocator,
    data_dir: String,
    thumbnails_dir: String,
    tmp_dir: String,
}

impl Index {
    /// The mathematical view of the whole index.
    pub closed spec fn view(&self) -> IndexView {
        IndexView {
            file_dir: self.file_repo.document_dir_view(),
            files: self.file_repo@,
            docs: self.doc_repo@,
            search: self.doc_repo.search_view(),
            tags: self.tagger@,
            curr_id: self.id_alloc@,
        }
    }

    pub open spec fn inv(&self) -> bool {
        view_inv(self@)
    }

    /// Creates the index over loaded components. The components come
    /// from the library's own loaders, so each is well formed; what can
    /// still disagree — a record id above the allocator, a record with
    /// no file — is checked here and fails with `InconsistentState`.
    pub fn new(
        data_dir: &str,
        tesseract_languages: &Vec<String>,
        file_repo: LocalFileRepository,
        doc_repo: MetadataStore,
        tagger: Tagger,
        id_alloc: IdAllocator,
    ) -> (r: Result<Index, IndexError>)
        requires
            file_repo.wf(),
            doc_repo.wf(),
            tagger.wf(),
        ensures
            parts_consistent(file_repo@, doc_repo@, id_alloc@) ==> (r matches Ok(ix) && ix.inv()
                && ix@ == (IndexView {
                file_dir: file_repo.document_dir_view(),
                files: file_repo@,
                docs: doc_repo@,
                search: doc_repo.search_view(),
                tags: tagger@,
                curr_id: id_alloc@,
            }) && ix.tmp_dir_view() == data_dir@ + "/tmp"@),
            !parts_consistent(file_repo@, doc_repo@, id_alloc@) ==> (r matches Err(e)
                && e is InconsistentState),
    {
        let ghost docs = doc_repo@;
        let ghost files = file_repo@;
        let n = doc_repo.record_count();
        let records = doc_repo.get_documents(0, n);
        proof {
            assert(docs.subrange(0, docs.len() as int) =~= docs);
            assert(docs_view(records) == docs);
        }
        let mut i: usize = 0;
        while i < records.len()
            invariant
                0 <= i <= docs.len(),
                docs == docs_view(records),
                docs.len() == records@.len(),
                docs == doc_repo@,
                files == file_repo@,
                forall|k: int| 0 <= k < i ==> (#[trigger] docs[k]).id <= id_alloc@,
                forall|k: int| 0 <= k < i ==> repo_contains(files, (#[trigger] docs[k]).id),
            decreases docs.len() - i,
        {
            proof {
                assert(docs[i as int] == records@[i as int]@);
            }
            if records[i].id > id_alloc.current() {
                assert(docs[i as int].id > id_alloc@);
                assert(!parts_consistent(files, docs, id_alloc@));
                return Err(IndexError::InconsistentState);
            }
            match file_repo.get_document(records[i].id) {
                Ok(_) => {
                    assert(repo_contains(files, docs[i as int].id));
                },
                Err(_) => {
                    assert(!repo_contains(files, docs[i as int].id));
                    assert(!parts_consistent(files, docs, id_alloc@));
                    return Err(IndexError::InconsistentState);
                },
            }
            i = i + 1;
        }
        let tmp_dir = data_dir.to_owned().concat("/tmp");
        let thumbnails_dir = data_dir.to_owned().concat("/thumbnails");
        let ix = Index {
            file_repo,
            doc_repo,
            tagger,
            extractor: ContentExtractor::new(tesseract_languages),
            id_alloc,
            data_dir: data_dir.to_owned(),
            thumbnails_dir,
            tmp_dir,
        };
        proof {
            assert(ix.inv());
        }
        Ok(ix)
    }

    /// The staging directory for uploads and OCR scratch.
    pub closed spec fn tmp_dir_view(&self) -> Seq<char> {
        self.tmp_dir@
    }

    pub fn get_tmp_dir(&self) -> (r: &str)
        ensures
            r@ == self.tmp_dir_view(),
    {
        self.tmp_dir.as_str()
    }

    /// The id file content to persist for the current allocator state.
    pub fn id_file_content(&self) -> (r: String)
        ensures
            r@ == spec_u64_string(self@.curr_id as int),
    {
        self.id_alloc.file_content()
    }

    /// Imports a new document from its bytes and extracted body. The
    /// content hash dedups: a known hash returns the existing id and
    /// changes nothing. A fresh file is assigned the next id,
    /// registered under its canonical path (the caller copies the bytes
    /// there), classified when it has a body, and stored. A matcher
    /// whose pattern does not compile fails the import and changes
    /// nothing.
    pub fn import_document(
        &mut self,
        path: &str,
        copy: bool,
        contents: &Vec<u8>,
        body: Option<String>,
        now: i64,
    ) -> (r: Result<DocId, IndexError>)
        requires
            old(self).inv(),
            old(self)@.curr_id < u64::MAX,
        ensures
            final(self).inv(),
            ({
                let pre = old(self)@;
                let post = final(self)@;
                let hash = spec_file_hash(contents@);
                let bv = view_opt_string(body);
                match spec_contains_hash(pre.docs, hash) {
                    Some(found) => (r matches Ok(id) && id == found && post == pre),
                    None => match bv {
                        Some(b) => match matching_tags(pre.tags.tags, b) {
                            Ok(ids) => (r matches Ok(id) && spec_import_fresh(
                                pre,
                                path@,
                                contents@,
                                bv,
                                now,
                                post,
                                id,
                            )),
                            Err(()) => (r matches Err(e) && (e matches IndexError::TaggerError(t)
                                && t is RegexError) && post == pre),
                        },
                        None => (r matches Ok(id) && spec_import_fresh(
                            pre,
                            path@,
                            contents@,
                            bv,
                            now,
                            post,
                            id,
                        )),
                    },
                }
            }),
    {
        let ghost pre = self@;
        let hash = FileExtractor::get_file_hash(contents);
        match self.doc_repo.contains_hash(hash.as_str()) {
            Some(found) => {
                assert(self@ =~= pre);
                return Ok(found);
            },
            None => {},
        }
        let ghost bv = view_opt_string(body);
        let original_filename = crate::text::file_name(path);
        let mut doc = DocumentData {
            id: 0,
            title: original_filename.clone(),
            original_filename,
            body,
            tags: Vec::new(),
            language: None,
            imported_date: now,
            extracted: crate::document::ExtractedData::new(),
            file_size: contents.len() as u64,
            hash,
        };
        let has_body = doc.body.is_some();
        if has_body {
            match self.tagger.tag_document(&mut doc) {
                Ok(()) => {},
                Err(e) => {
                    assert(self@ =~= pre);
                    return Err(IndexError::TaggerError(e));
                },
            }
        }
        let id = self.id_alloc.next();
        doc.id = id;
        proof {
            assert(doc@ =~= classified(pre.tags, fresh_doc(path@, contents@, bv, now, id), bv));
        }
        let _dest = self.file_repo.add_document(id, path);
        proof {
            crate::metadata_store::lemma_contains_hash_none(pre.docs, spec_file_hash(contents@));
            assert(hash_free_for(pre.docs, doc@));
        }
        self.doc_repo.add_document(&doc);
        proof {
            self.lemma_after_store_change(pre, id, doc@, true);
            assert(spec_import_fresh(pre, path@, contents@, bv, now, self@, id));
        }
        Ok(id)
    }

    /// Reprocesses a stored document against a freshly extracted body:
    /// the record's tags and inferred date are reset, the body
    /// replaced, the record re-classified and stored. Fails with
    /// `NotFound` exactly when the id is unknown, and with a tagger
    /// error when a pattern does not compile; on failure nothing
    /// changes.
    pub fn reprocess_document(&mut self, id: DocId, body: Option<String>) -> (r: Result<
        (),
        IndexError,
    >)
        requires
            old(self).inv(),
        ensures
            final(self).inv(),
            reprocess_spec(old(self)@, id, view_opt_string(body), final(self)@, r),
    {
        self.apply_reprocess(id, body)
    }

    /// Reprocesses a stored document whose body came from a forced OCR
    /// pass rather than the normal extraction path; the stored outcome
    /// is the same function of the body.
    pub fn reprocess_document_force_ocr(&mut self, id: DocId, body: Option<String>) -> (r: Result<
        (),
        IndexError,
    >)
        requires
            old(self).inv(),
        ensures
            final(self).inv(),
            reprocess_spec(old(self)@, id, view_opt_string(body), final(self)@, r),
    {
        self.apply_reprocess(id, body)
    }

    fn apply_reprocess(&mut self, id: DocId, body: Option<String>) -> (r: Result<(), IndexError>)
        requires
            old(self).inv(),
        ensures
            final(self).inv(),
            reprocess_spec(old(self)@, id, view_opt_string(body), final(self)@, r),
    {
        let ghost pre = self@;
        let ghost bv = view_opt_string(body);
        let mut doc = match self.doc_repo.get_document(id) {
            Ok(d) => d,
            Err(e) => {
                assert(self@ =~= pre);
                return Err(IndexError::DocRepoError(e));
            },
        };
        let ghost d0 = doc@;
        doc.tags = Vec::new();
        doc.extracted.doc_date = None;
        doc.body = body;
        proof {
            assert(doc@ =~= spec_reprocess_doc(d0, bv));
        }
        let has_body = doc.body.is_some();
        if has_body {
            match self.tagger.tag_document(&mut doc) {
                Ok(()) => {},
                Err(e) => {
                    assert(self@ =~= pre);
                    return Err(IndexError::TaggerError(e));
                },
            }
        }
        proof {
            assert(doc@ =~= classified(pre.tags, spec_reprocess_doc(d0, bv), bv));
            crate::metadata_store::lemma_get_by_index(pre.docs, id);
            assert(hash_free_for(pre.docs, doc@)) by {
                let i = choose|i: int|
                    0 <= i < pre.docs.len() && (#[trigger] pre.docs[i]).id == id && pre.docs[i]
                        == d0;
                assert forall|k: int|
                    0 <= k < pre.docs.len() && (#[trigger] pre.docs[k]).hash == doc@.hash implies
                    pre.docs[k].id == doc@.id by {
                    if k != i {
                        assert(pre.docs[k].hash != pre.docs[i].hash);
                    }
                }
            }
        }
        self.doc_repo.add_document(&doc);
        proof {
            crate::metadata_store::lemma_get_by_index(pre.docs, id);
            assert(doc@.id == id);
            self.lemma_after_store_change(pre, id, doc@, false);
            assert(spec_reprocess_ok(pre, id, d0, bv, self@));
        }
        Ok(())
    }

    /// Updates a document's metadata in place, without touching the
    /// search index. The record must already be stored under the same
    /// id and hash — callers derive it from `get_document` and patch
    /// fields the update may change.
    pub fn update_doc_metadata(&mut self, doc: DocumentData) -> (r: Result<(), IndexError>)
        requires
            old(self).inv(),
            spec_get(old(self)@.docs, doc@.id) matches Some(d0) && d0.hash == doc@.hash,
        ensures
            final(self).inv(),
            r is Ok,
            final(self)@ == (IndexView {
                docs: docs_remove(old(self)@.docs, doc@.id).push(
                    crate::document::spec_persisted(doc@),
                ),
                ..old(self)@
            }),
    {
        let ghost pre = self@;
        proof {
            crate::metadata_store::lemma_get_by_index(pre.docs, doc@.id);
            assert(hash_free_for(pre.docs, doc@)) by {
                let d0 = spec_get(pre.docs, doc@.id).unwrap();
                let i = choose|i: int|
                    0 <= i < pre.docs.len() && (#[trigger] pre.docs[i]).id == doc@.id
                        && pre.docs[i] == d0;
                assert forall|k: int|
                    0 <= k < pre.docs.len() && (#[trigger] pre.docs[k]).hash == doc@.hash implies
                    pre.docs[k].id == doc@.id by {
                    if k != i {
                        assert(pre.docs[k].hash != pre.docs[i].hash);
                    }
                }
            }
        }
        self.doc_repo.update_metadata(&doc);
        proof {
            self.lemma_after_store_change(pre, doc@.id, doc@, false);
            assert(self@ =~= (IndexView {
                docs: docs_remove(pre.docs, doc@.id).push(crate::document::spec_persisted(doc@)),
                ..pre
            }));
        }
        Ok(())
    }

    /// The number of documents the search index holds.
    pub fn len(&self) -> (r: usize)
        ensures
            r == self@.search.len(),
    {
        self.doc_repo.len()
    }

    /// The stored path of a document's file. Fails exactly when the id
    /// has no file.
    pub fn get_document_path(&self, id: DocId) -> (r: Result<String, IndexError>)
        ensures
            r matches Ok(p) ==> repo_get(self@.files, id) == Some(p@),
            r matches Err(e) ==> (e is FileRepoError && !repo_contains(self@.files, id)),
    {
        match self.file_repo.get_document(id) {
            Ok(p) => Ok(p),
            Err(e) => Err(IndexError::FileRepoError(FileRepositoryError::FileRepoError(e))),
        }
    }

    /// The stored records from `offset` on, at most `count`, in storage
    /// order.
    pub fn get_documents(&self, offset: usize, count: usize) -> (r: Vec<DocumentData>)
        ensures
            docs_view(r) == self@.docs.subrange(
                vstd::math::min(offset as int, self@.docs.len() as int),
                vstd::math::min(offset as int + count as int, self@.docs.len() as int),
            ),
    {
        self.doc_repo.get_documents(offset, count)
    }

    /// The stored record of this id. Fails with `NotFound` exactly when
    /// no record has it.
    pub fn get_document(&self, id: DocId) -> (r: Result<DocumentData, IndexError>)
        ensures
            r matches Ok(d) ==> spec_get(self@.docs, id) == Some(d@),
            r matches Err(e) ==> (e matches IndexError::DocRepoError(
                DocumentRepositoryError::NotFound(i),
            ) && i == id && spec_get(self@.docs, id) is None),
    {
        match self.doc_repo.get_document(id) {
            Ok(d) => Ok(d),
            Err(e) => Err(IndexError::DocRepoError(e)),
        }
    }

    /// The filtered, ordered window of the stored records; `scores` is
    /// the full-text engine's answer for the filter's query.
    pub fn get_sorted_documents(
        &self,
        offset: usize,
        count: usize,
        filter: &FilterOptions,
        scores: &Vec<(DocId, u64)>,
    ) -> (r: Vec<DocumentData>)
        ensures
            crate::query::filtered_result_ok(
                self@.docs,
                offset as int,
                count as int,
                filter@,
                scores@,
                docs_view(r),
            ),
    {
        self.doc_repo.get_filtered_documents(offset, count, filter, scores)
    }

    /// Removes a document: its file registration and its record with
    /// the search entry. A missing file or record on either side is a
    /// no-op for that side. Returns the path of the file the caller
    /// must delete, if one was registered.
    pub fn remove_document(&mut self, id: DocId) -> (r: Option<String>)
        requires
            old(self).inv(),
        ensures
            final(self).inv(),
            final(self)@ == (IndexView {
                files: repo_remove(old(self)@.files, id),
                docs: docs_remove(old(self)@.docs, id),
                search: ids_remove(old(self)@.search, id),
                ..old(self)@
            }),
            (r is Some) <==> repo_contains(old(self)@.files, id),
            r matches Some(p) ==> repo_get(old(self)@.files, id) == Some(p@),
    {
        let ghost pre = self@;
        let removed = self.file_repo.remove_document(id);
        self.doc_repo.remove_document(id);
        proof {
            crate::metadata_store::lemma_docs_remove_unique(pre.docs, id);
            assert forall|i: int| 0 <= i < self@.docs.len() implies (#[trigger] self@.docs[i]).id
                <= self@.curr_id by {
                assert(pre.docs.contains(self@.docs[i]));
                let j = choose|j: int| 0 <= j < pre.docs.len() && pre.docs[j] == self@.docs[i];
            }
            assert forall|i: int| 0 <= i < self@.docs.len() implies repo_contains(
                self@.files,
                (#[trigger] self@.docs[i]).id,
            ) by {
                assert(pre.docs.contains(self@.docs[i]));
                let j = choose|j: int| 0 <= j < pre.docs.len() && pre.docs[j] == self@.docs[i];
                crate::metadata_store::lemma_docs_remove_gone(pre.docs, id);
                assert(self@.docs[i].id != id);
                assert(repo_contains(pre.files, self@.docs[i].id));
                crate::file_repository::lemma_repo_get_some_iff(pre.files, self@.docs[i].id);
                crate::file_repository::lemma_repo_remove_keeps(pre.files, id, self@.docs[i].id);
                let k = choose|k: int|
                    0 <= k < repo_remove(pre.files, id).len() && (#[trigger] repo_remove(
                        pre.files,
                        id,
                    )[k]).0 == self@.docs[i].id;
                crate::file_repository::lemma_repo_get_some_iff(
                    repo_remove(pre.files, id),
                    self@.docs[i].id,
                );
                assert(repo_contains(self@.files, self@.docs[i].id));
            }
            assert(self@ =~= (IndexView {
                files: repo_remove(pre.files, id),
                docs: docs_remove(pre.docs, id),
                search: ids_remove(pre.search, id),
                ..pre
            }));
        }
        removed
    }

    /// Adds a new tag under a freshly assigned id; stored documents are
    /// not retagged. Returns the assigned id.
    pub fn add_tag(&mut self, tag: TagConfig) -> (r: Result<TagId, IndexError>)
        requires
            old(self).inv(),
            old(self)@.tags.curr_id < u64::MAX,
        ensures
            final(self).inv(),
            r matches Ok(id) && id == old(self)@.tags.curr_id + 1,
            final(self)@ == (IndexView {
                tags: (TagsView {
                    curr_id: (old(self)@.tags.curr_id + 1) as u64,
                    tags: old(self)@.tags.tags.push(
                        (crate::tagger::TagView {
                            id: (old(self)@.tags.curr_id + 1) as u64,
                            ..tag@
                        }),
                    ),
                }),
                ..old(self)@
            }),
    {
        let ghost pre = self@;
        let id = self.tagger.add_tag(tag);
        proof {
            assert(self@ =~= (IndexView {
                tags: (TagsView {
                    curr_id: (pre.tags.curr_id + 1) as u64,
                    tags: pre.tags.tags.push(
                        (crate::tagger::TagView { id: (pre.tags.curr_id + 1) as u64, ..tag@ }),
                    ),
                }),
                ..pre
            }));
        }
        Ok(id)
    }

    /// Replaces the tag of the given id, or adds the tag under a fresh
    /// id when none exists; stored documents are not retagged.
    pub fn add_or_replace_tag(&mut self, tag: TagConfig) -> (r: Result<TagId, IndexError>)
        requires
            old(self).inv(),
            old(self)@.tags.curr_id < u64::MAX,
        ensures
            final(self).inv(),
            final(self)@.files == old(self)@.files,
            final(self)@.docs == old(self)@.docs,
            final(self)@.search == old(self)@.search,
            final(self)@.curr_id == old(self)@.curr_id,
            final(self)@.file_dir == old(self)@.file_dir,
            spec_tag_get(old(self)@.tags.tags, tag@.id) is Some ==> ((r matches Ok(id) && id
                == tag@.id) && final(self)@.tags.curr_id == old(self)@.tags.curr_id
                && final(self)@.tags.tags == tags_remove(old(self)@.tags.tags, tag@.id).push(
                tag@,
            )),
            spec_tag_get(old(self)@.tags.tags, tag@.id) is None ==> ((r matches Ok(id) && id
                == old(self)@.tags.curr_id + 1) && final(self)@.tags.curr_id
                == old(self)@.tags.curr_id + 1 && final(self)@.tags.tags
                == old(self)@.tags.tags.push(
                (crate::tagger::TagView { id: (old(self)@.tags.curr_id + 1) as u64, ..tag@ }),
            )),
    {
        let id = self.tagger.add_or_replace_tag(tag);
        Ok(id)
    }

    /// Drops a tag from the configuration; documents that referenced it
    /// keep the dangling id.
    pub fn remove_tag(&mut self, id: TagId) -> (r: Result<(), IndexError>)
        requires
            old(self).inv(),
        ensures
            final(self).inv(),
            r is Ok,
            final(self)@ == (IndexView {
                tags: (TagsView {
                    curr_id: old(self)@.tags.curr_id,
                    tags: tags_remove(old(self)@.tags.tags, id),
                }),
                ..old(self)@
            }),
    {
        let ghost pre = self@;
        self.tagger.remove_tag(id);
        proof {
            assert(self@ =~= (IndexView {
                tags: (TagsView {
                    curr_id: pre.tags.curr_id,
                    tags: tags_remove(pre.tags.tags, id),
                }),
                ..pre
            }));
        }
        Ok(())
    }

    /// The configuration of the tag with this id, if any.
    pub fn get_tag(&self, id: TagId) -> (r: Option<TagConfig>)
        ensures
            r matches Some(t) ==> spec_tag_get(self@.tags.tags, id) == Some(t@),
            r is None ==> spec_tag_get(self@.tags.tags, id) is None,
    {
        self.tagger.get_tag(id)
    }

    /// The configuration of every tag, in configuration order.
    pub fn get_tags(&self) -> (r: Vec<TagConfig>)
        ensures
            tags_view(r) == self@.tags.tags,
    {
        self.tagger.get_tags()
    }

    /// The tag configuration to persist.
    pub fn tags_config(&self) -> (r: &crate::tagger::TagsConfig)
        ensures
            r@ == self@.tags,
    {
        self.tagger.config()
    }

    /// The stored records to persist as the metadata file.
    pub fn all_records(&self) -> (r: Vec<DocumentData>)
        ensures
            docs_view(r) == self@.docs,
    {
        let n = self.doc_repo.record_count();
        let r = self.doc_repo.get_documents(0, n);
        proof {
            assert(self@.docs.subrange(0, self@.docs.len() as int) =~= self@.docs);
        }
        r
    }

    /// After a store upsert of a record whose id was either fresh above
    /// every stored id or already stored, the index-wide invariant is
    /// restored.
    proof fn lemma_after_store_change(&self, pre: IndexView, id: DocId, d: DocView, upserted: bool)
        requires
            view_inv(pre),
            d.id == id,
            d.id <= self@.curr_id,
            self@.docs == docs_remove(pre.docs, id).push(crate::document::spec_persisted(d)),
            self@.search == ids_remove(pre.search, id).push(id) || self@.search == ids_remove(
                pre.search,
                id,
            ) || self@.search == pre.search,
            self@.curr_id >= pre.curr_id,
            upserted ==> self@.files == repo_upsert(
                pre.files,
                id,
                spec_doc_path(pre.file_dir, id),
            ),
            !upserted ==> self@.files == pre.files && spec_get(pre.docs, id) is Some,
        ensures
            forall|i: int| 0 <= i < self@.docs.len() ==> (#[trigger] self@.docs[i]).id
                <= self@.curr_id,
            forall|i: int|
                0 <= i < self@.docs.len() ==> repo_contains(
                    self@.files,
                    (#[trigger] self@.docs[i]).id,
                ),
    {
        let post = self@;
        crate::metadata_store::lemma_docs_remove_unique(pre.docs, id);
        assert forall|i: int| 0 <= i < post.docs.len() implies (#[trigger] post.docs[i]).id
            <= post.curr_id by {
            if i < post.docs.len() - 1 {
                assert(post.docs[i] == docs_remove(pre.docs, id)[i]);
                assert(pre.docs.contains(post.docs[i]));
                let j = choose|j: int| 0 <= j < pre.docs.len() && pre.docs[j] == post.docs[i];
            } else {
                assert(post.docs[i] == crate::document::spec_persisted(d));
            }
        }
        assert forall|i: int| 0 <= i < post.docs.len() implies repo_contains(
            post.files,
            (#[trigger] post.docs[i]).id,
        ) by {
            if i < post.docs.len() - 1 {
                assert(post.docs[i] == docs_remove(pre.docs, id)[i]);
                assert(pre.docs.contains(post.docs[i]));
                let j = choose|j: int| 0 <= j < pre.docs.len() && pre.docs[j] == post.docs[i];
                crate::metadata_store::lemma_docs_remove_gone(pre.docs, id);
                assert(post.docs[i].id != id);
                assert(repo_contains(pre.files, post.docs[i].id));
                if upserted {
                    crate::file_repository::lemma_repo_get_some_iff(pre.files, post.docs[i].id);
                    crate::file_repository::lemma_repo_remove_keeps(
                        pre.files,
                        id,
                        post.docs[i].id,
                    );
                    let k = choose|k: int|
                        0 <= k < repo_remove(pre.files, id).len() && (#[trigger] repo_remove(
                            pre.files,
                            id,
                        )[k]).0 == post.docs[i].id;
                    assert(post.files[k].0 == post.docs[i].id);
                    crate::file_repository::lemma_repo_get_some_iff(
                        post.files,
                        post.docs[i].id,
                    );
                }
            } else {
                assert(post.docs[i].id == id);
                if upserted {
                    assert(post.files[post.files.len() - 1].0 == id);
                    crate::file_repository::lemma_repo_get_some_iff(post.files, id);
                } else {
                    crate::metadata_store::lemma_get_by_index(pre.docs, id);
                    let e = spec_get(pre.docs, id).unwrap();
                    let j = choose|j: int|
                        0 <= j < pre.docs.len() && (#[trigger] pre.docs[j]).id == id
                            && pre.docs[j] == e;
                    assert(repo_contains(pre.files, pre.docs[j].id));
                }
            }
        }
    }
}

/// Importing the same bytes twice in sequence returns the same id both
/// times, the second call changes nothing, and exactly one stored
/// record carries the content hash.
pub proof fn lemma_import_dedup(
    pre: IndexView,
    mid: IndexView,
    post: IndexView,
    path1: Seq<char>,
    path2: Seq<char>,
    bytes: Seq<u8>,
    b1: Option<Seq<char>>,
    b2: Option<Seq<char>>,
    now1: i64,
    now2: i64,
    r1: DocId,
    r2: DocId,
)
    requires
        view_inv(pre),
        view_inv(mid),
        match spec_contains_hash(pre.docs, spec_file_hash(bytes)) {
            Some(found) => r1 == found && mid == pre,
            None => spec_import_fresh(pre, path1, bytes, b1, now1, mid, r1),
        },
        match spec_contains_hash(mid.docs, spec_file_hash(bytes)) {
            Some(found) => r2 == found && post == mid,
            None => spec_import_fresh(mid, path2, bytes, b2, now2, post, r2),
        },
    ensures
        r2 == r1,
        post == mid,
        spec_contains_hash(mid.docs, spec_file_hash(bytes)) == Some(r1),
        exists|i: int|
            0 <= i < mid.docs.len() && (#[trigger] mid.docs[i]).hash == spec_file_hash(bytes)
                && mid.docs[i].id == r1 && (forall|j: int|
                0 <= j < mid.docs.len() && (#[trigger] mid.docs[j]).hash == spec_file_hash(bytes)
                    ==> j == i),
{
    let hash = spec_file_hash(bytes);
    match spec_contains_hash(pre.docs, hash) {
        Some(found) => {
            assert(spec_contains_hash(mid.docs, hash) == Some(r1));
        },
        None => {
            let id = (pre.curr_id + 1) as u64;
            let tagged = classified(pre.tags, fresh_doc(path1, bytes, b1, now1, id), b1);
            assert(mid.docs.last() == crate::document::spec_persisted(tagged));
            assert(mid.docs.last().hash == hash);
            assert(mid.docs.last().id == r1);
            crate::metadata_store::lemma_contains_hash_unique(
                mid.docs,
                hash,
                mid.docs.len() - 1,
            );
        },
    }
    crate::metadata_store::lemma_contains_hash_witness(mid.docs, hash);
    let i = choose|i: int|
        0 <= i < mid.docs.len() && (#[trigger] mid.docs[i]).hash == hash && mid.docs[i].id == r1;
    assert(0 <= i < mid.docs.len() && mid.docs[i].hash == hash && mid.docs[i].id == r1 && (
    forall|j: int| 0 <= j < mid.docs.len() && (#[trigger] mid.docs[j]).hash == hash ==> j == i));
}

/// The ids of a sequence of fresh, successful imports strictly
/// increase. A duplicate import is the exception: it returns the id
/// the content already has.
pub proof fn lemma_import_monotonic(
    pre: IndexView,
    mid: IndexView,
    post: IndexView,
    path1: Seq<char>,
    path2: Seq<char>,
    bytes1: Seq<u8>,
    bytes2: Seq<u8>,
    b1: Option<Seq<char>>,
    b2: Option<Seq<char>>,
    now1: i64,
    now2: i64,
    r1: DocId,
    r2: DocId,
)
    requires
        pre.curr_id + 2 <= u64::MAX,
        spec_import_fresh(pre, path1, bytes1, b1, now1, mid, r1),
        spec_import_fresh(mid, path2, bytes2, b2, now2, post, r2),
    ensures
        r1 < r2,
        r1 == pre.curr_id + 1,
        r2 == pre.curr_id + 2,
{
}

/// After a removal the record is gone, its hash is free, its file is
/// unregistered, and the search index is one smaller.
pub proof fn lemma_removal(pre: IndexView, post: IndexView, id: DocId, d: DocView)
    requires
        view_inv(pre),
        spec_get(pre.docs, id) == Some(d),
        pre.search.contains(id),
        post.files == repo_remove(pre.files, id),
        post.docs == docs_remove(pre.docs, id),
        post.search == ids_remove(pre.search, id),
    ensures
        spec_get(post.docs, id) is None,
        spec_contains_hash(post.docs, d.hash) is None,
        !repo_contains(post.files, id),
        post.search.len() == pre.search.len() - 1,
{
    crate::metadata_store::lemma_docs_remove_gone(pre.docs, id);
    crate::metadata_store::lemma_get_some_iff(post.docs, id);
    crate::metadata_store::lemma_get_by_index(pre.docs, id);
    let i = choose|i: int|
        0 <= i < pre.docs.len() && (#[trigger] pre.docs[i]).id == id && pre.docs[i] == d;
    assert forall|k: int|
        0 <= k < pre.docs.len() && (#[trigger] pre.docs[k]).hash == d.hash implies pre.docs[k].id
        == id by {
        if k != i {
            assert(pre.docs[k].hash != pre.docs[i].hash);
        }
    }
    crate::metadata_store::lemma_docs_remove_hash_gone(pre.docs, id, d.hash);
    crate::metadata_store::lemma_contains_hash_none(post.docs, d.hash);
    crate::file_repository::lemma_repo_remove_gone(pre.files, id);
    crate::file_repository::lemma_repo_get_some_iff(post.files, id);
    crate::search_index::lemma_ids_remove_len(pre.search, id);
}

/// What a reprocess call does, as a relation between the index states.
pub open spec fn reprocess_spec(
    pre: IndexView,
    id: DocId,
    bv: Option<Seq<char>>,
    post: IndexView,
    r: Result<(), IndexError>,
) -> bool {
    match spec_get(pre.docs, id) {
        None => (r matches Err(e) && (e matches IndexError::DocRepoError(
            DocumentRepositoryError::NotFound(i),
        ) && i == id) && post == pre),
        Some(d0) => {
            match bv {
                Some(b) => match matching_tags(pre.tags.tags, b) {
                    Ok(ids) => r is Ok && spec_reprocess_ok(pre, id, d0, bv, post),
                    Err(()) => (r matches Err(e) && (e matches IndexError::TaggerError(t)
                        && t is RegexError) && post == pre),
                },
                None => r is Ok && spec_reprocess_ok(pre, id, d0, bv, post),
            }
        },
    }
}

} // verus!
