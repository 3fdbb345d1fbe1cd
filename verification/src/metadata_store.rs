//! The metadata store: the persistent ordered sequence of document
//! records, paired with the model of the search index contents. Every
//! mutation yields the full new sequence, which the caller rewrites to
//! the metadata file; the search engine mirrors the ids this model
//! tracks.

use vstd::prelude::*;
use crate::DocId;
use crate::document::{
    DocumentData, DocView, DocumentRepositoryError, FilterOptions, SortOrder, spec_persisted,
};
use crate::search_index::{SearchIndex, ids_remove};

verus! {

broadcast use vstd::seq_lib::group_to_multiset_ensures;

/// Removes every record with this id.
pub open spec fn docs_remove(docs: Seq<DocView>, id: DocId) -> Seq<DocView>
    decreases docs.len(),
{
    if docs.len() == 0 {
        docs
    } else {
        let rest = docs_remove(docs.drop_last(), id);
        if docs.last().id == id {
            rest
        } else {
            rest.push(docs.last())
        }
    }
}

/// The stored record of this id, scanning from the front.
pub open spec fn spec_get(docs: Seq<DocView>, id: DocId) -> Option<DocView>
    decreases docs.len(),
{
    if docs.len() == 0 {
        None
    } else if docs.first().id == id {
        Some(docs.first())
    } else {
        spec_get(docs.drop_first(), id)
    }
}

/// The id of the first stored record carrying this hash, if any.
pub open spec fn spec_contains_hash(docs: Seq<DocView>, hash: Seq<char>) -> Option<DocId>
    decreases docs.len(),
{
    if docs.len() == 0 {
        None
    } else if docs.first().hash == hash {
        Some(docs.first().id)
    } else {
        spec_contains_hash(docs.drop_first(), hash)
    }
}

/// No id occurs twice.
pub open spec fn docs_unique_ids(docs: Seq<DocView>) -> bool {
    forall|i: int, j: int|
        0 <= i < j < docs.len() ==> (#[trigger] docs[i]).id != (#[trigger] docs[j]).id
}

/// Every stored record carrying this record's hash is the record of
/// the same id: the condition under which an upsert keeps hashes
/// unique.
pub open spec fn hash_free_for(docs: Seq<DocView>, d: DocView) -> bool {
    forall|i: int| 0 <= i < docs.len() ==> ((#[trigger] docs[i]).hash == d.hash ==> docs[i].id == d.id)
}

/// No hash occurs twice.
pub open spec fn docs_unique_hashes(docs: Seq<DocView>) -> bool {
    forall|i: int, j: int|
        0 <= i < j < docs.len() ==> (#[trigger] docs[i]).hash != (#[trigger] docs[j]).hash
}

/// The persistent ordered collection of document records, versioned on
/// disk, together with the model of the search index over their bodies.
pub struct MetadataStore {
    docs: Vec<DocumentData>,
    search: SearchIndex,
}

/// The views of a record vector, in order.
pub open spec fn docs_view(v: Vec<DocumentData>) -> Seq<DocView> {
    Seq::new(v@.len(), |i: int| v@[i]@)
}

impl MetadataStore {
    /// The mathematical view: the stored records, in storage order.
    pub closed spec fn view(&self) -> Seq<DocView> {
        docs_view(self.docs)
    }

    /// The ids the search index holds.
    pub closed spec fn search_view(&self) -> Seq<DocId> {
        self.search@
    }

    /// Well-formedness: ids unique, hashes unique, the search index
    /// duplicate-free and holding only stored ids, and every stored
    /// record body-free.
    pub open spec fn wf(&self) -> bool {
        &&& docs_unique_ids(self@)
        &&& docs_unique_hashes(self@)
        &&& crate::search_index::ids_unique(self.search_view())
        &&& forall|i: int|
            0 <= i < self.search_view().len() ==> spec_get(
                self@,
                #[trigger] self.search_view()[i],
            ) is Some
    }

    /// An empty store.
    pub fn new() -> (r: MetadataStore)
        ensures
            r@ =~= Seq::<DocView>::empty(),
            r.search_view() =~= Seq::<DocId>::empty(),
            r.wf(),
    {
        MetadataStore { docs: Vec::new(), search: SearchIndex::new() }
    }

    /// Builds the store from the records the metadata file holds. The
    /// file is the store's own output, so duplicate ids or hashes mean
    /// a corrupt file and fail the load with `Duplicate`.
    pub fn from_records(records: &Vec<DocumentData>) -> (r: Result<
        MetadataStore,
        DocumentRepositoryError,
    >)
        ensures
            docs_unique_ids(docs_view(*records)) && docs_unique_hashes(docs_view(*records)) ==> (
            r matches Ok(store) && store@ == docs_persisted(docs_view(*records)) && store.wf()),
            !(docs_unique_ids(docs_view(*records)) && docs_unique_hashes(docs_view(*records)))
                ==> (r matches Err(e) && e is Duplicate),
    {
        let ghost rvs = docs_view(*records);
        let mut i: usize = 0;
        while i < records.len()
            invariant
                0 <= i <= rvs.len(),
                rvs == docs_view(*records),
                rvs.len() == records@.len(),
                forall|k: int, l: int|
                    0 <= k < l < i ==> (#[trigger] rvs[k]).id != (#[trigger] rvs[l]).id,
                forall|k: int, l: int|
                    0 <= k < l < i ==> (#[trigger] rvs[k]).hash != (#[trigger] rvs[l]).hash,
            decreases rvs.len() - i,
        {
            let mut j: usize = 0;
            while j < i
                invariant
                    0 <= j <= i < rvs.len(),
                    rvs == docs_view(*records),
                    rvs.len() == records@.len(),
                    forall|k: int|
                        0 <= k < j ==> (#[trigger] rvs[k]).id != rvs[i as int].id && rvs[k].hash
                            != rvs[i as int].hash,
                decreases i - j,
            {
                let same_id = records[j].id == records[i].id;
                let same_hash = records[j].hash == records[i].hash;
                if same_id || same_hash {
                    proof {
                        assert(rvs[j as int].id == records@[j as int]@.id);
                        assert(rvs[i as int].id == records@[i as int]@.id);
                        assert(rvs[j as int].hash == records@[j as int]@.hash);
                        assert(rvs[i as int].hash == records@[i as int]@.hash);
                        if same_id {
                            assert(!docs_unique_ids(rvs));
                        } else {
                            assert(!docs_unique_hashes(rvs));
                        }
                    }
                    return Err(DocumentRepositoryError::Duplicate(records[i].id));
                }
                j = j + 1;
            }
            i = i + 1;
        }
        Ok(Self::build_from_records(records))
    }

    /// Builds the store from records whose ids and hashes are unique,
    /// re-indexing every record that carries a body; the record order
    /// of the file is kept.
    fn build_from_records(records: &Vec<DocumentData>) -> (r: MetadataStore)
        requires
            docs_unique_ids(docs_view(*records)),
            docs_unique_hashes(docs_view(*records)),
        ensures
            r@ == docs_persisted(docs_view(*records)),
            r.wf(),
    {
        let mut store = MetadataStore::new();
        let ghost rvs = docs_view(*records);
        let mut i: usize = 0;
        assert(rvs.subrange(0, 0) =~= Seq::<DocView>::empty());
        assert(store@ =~= docs_persisted(rvs.subrange(0, 0)));
        while i < records.len()
            invariant
                0 <= i <= rvs.len(),
                rvs == docs_view(*records),
                rvs.len() == records@.len(),
                docs_unique_ids(rvs),
                docs_unique_hashes(rvs),
                store@ == docs_persisted(rvs.subrange(0, i as int)),
                store.wf(),
            decreases rvs.len() - i,
        {
            let ghost pre = rvs.subrange(0, i as int);
            let ghost pre1 = rvs.subrange(0, i + 1 as int);
            let ghost prev = store@;
            proof {
                assert(pre1.drop_last() =~= pre);
                assert(pre1.last() == rvs[i as int]);
                assert forall|k: int| 0 <= k < prev.len() implies (#[trigger] prev[k]).id
                    != rvs[i as int].id && prev[k].hash != rvs[i as int].hash by {
                    assert(prev[k] == spec_persisted(pre[k]));
                    assert(pre[k] == rvs[k]);
                }
                assert(hash_free_for(prev, rvs[i as int]));
            }
            let d = records[i].duplicate();
            store.add_document(&d);
            proof {
                lemma_docs_remove_absent(prev, rvs[i as int].id);
                assert(store@ =~= docs_persisted(pre1));
            }
            i = i + 1;
        }
        assert(rvs.subrange(0, rvs.len() as int) =~= rvs);
        store
    }

    /// Adds or replaces a record: any record of the same id is removed,
    /// the body-free form is appended, and the search index is brought
    /// in line — a record with a body is (re)indexed, one without loses
    /// its index entry.
    pub fn add_document(&mut self, doc: &DocumentData)
        ensures
            final(self)@ == docs_remove(old(self)@, doc@.id).push(spec_persisted(doc@)),
            doc@.body is Some ==> final(self).search_view() == ids_remove(
                old(self).search_view(),
                doc@.id,
            ).push(doc@.id),
            doc@.body is None ==> final(self).search_view() == ids_remove(
                old(self).search_view(),
                doc@.id,
            ),
            old(self).wf() && hash_free_for(old(self)@, doc@) ==> final(self).wf(),
    {
        let persisted = doc.persisted();
        Self::upsert_record(&mut self.docs, persisted);
        match &doc.body {
            Some(_) => {
                self.search.upsert(doc.id);
                proof {
                    crate::search_index::lemma_ids_remove_gone(old(self).search_view(), doc@.id);
                    if old(self).wf() && hash_free_for(old(self)@, doc@) {
                        Self::lemma_wf_after_upsert(old(self)@, old(self).search_view(), doc@);
                    }
                }
            },
            None => {
                self.search.remove(doc.id);
                proof {
                    crate::search_index::lemma_ids_remove_gone(old(self).search_view(), doc@.id);
                    if old(self).wf() && hash_free_for(old(self)@, doc@) {
                        Self::lemma_wf_after_upsert(old(self)@, old(self).search_view(), doc@);
                    }
                }
            },
        }
    }

    /// A metadata-only upsert: the record is replaced but the search
    /// index is left alone.
    pub fn update_metadata(&mut self, doc: &DocumentData)
        ensures
            final(self)@ == docs_remove(old(self)@, doc@.id).push(spec_persisted(doc@)),
            final(self).search_view() == old(self).search_view(),
            old(self).wf() && hash_free_for(old(self)@, doc@) ==> final(self).wf(),
    {
        let persisted = doc.persisted();
        Self::upsert_record(&mut self.docs, persisted);
        proof {
            if old(self).wf() && hash_free_for(old(self)@, doc@) {
                Self::lemma_wf_after_update(old(self)@, old(self).search_view(), doc@);
            }
        }
    }

    /// Drops the record of this id, if any, and its search index entry.
    pub fn remove_document(&mut self, id: DocId)
        ensures
            final(self)@ == docs_remove(old(self)@, id),
            final(self).search_view() == ids_remove(old(self).search_view(), id),
            old(self).wf() ==> final(self).wf(),
    {
        Self::remove_record(&mut self.docs, id);
        self.search.remove(id);
        proof {
            if old(self).wf() {
                lemma_docs_remove_unique(old(self)@, id);
                crate::search_index::lemma_ids_remove_gone(old(self).search_view(), id);
                assert forall|i: int| 0 <= i < self.search_view().len() implies spec_get(
                    self@,
                    #[trigger] self.search_view()[i],
                ) is Some by {
                    let sid = self.search_view()[i];
                    lemma_ids_remove_sub(old(self).search_view(), id, i);
                    assert(old(self).search_view().contains(sid));
                    assert(spec_get(old(self)@, sid) is Some);
                    lemma_docs_remove_get_other(old(self)@, id, sid);
                }
            }
        }
    }

    /// The stored record of this id. Fails with `NotFound` exactly when
    /// no record has it.
    pub fn get_document(&self, id: DocId) -> (r: Result<DocumentData, DocumentRepositoryError>)
        ensures
            r matches Ok(d) ==> spec_get(self@, id) == Some(d@),
            r matches Err(e) ==> (e matches DocumentRepositoryError::NotFound(i) && i == id
                && spec_get(self@, id) is None),
    {
        let ghost m = self@;
        let mut i: usize = 0;
        assert(m.subrange(0, m.len() as int) =~= m);
        while i < self.docs.len()
            invariant
                0 <= i <= m.len(),
                m == self@,
                m.len() == self.docs@.len(),
                spec_get(m, id) == spec_get(m.subrange(i as int, m.len() as int), id),
            decreases m.len() - i,
        {
            let ghost rest = m.subrange(i as int, m.len() as int);
            let ghost rest1 = m.subrange(i + 1 as int, m.len() as int);
            proof {
                assert(rest.first() == m[i as int]);
                assert(rest.drop_first() =~= rest1);
            }
            if self.docs[i].id == id {
                return Ok(self.docs[i].duplicate());
            }
            i = i + 1;
        }
        assert(m.subrange(m.len() as int, m.len() as int) =~= Seq::<DocView>::empty());
        Err(DocumentRepositoryError::NotFound(id))
    }

    /// The number of indexed documents, as the search engine counts
    /// them.
    pub fn len(&self) -> (r: usize)
        ensures
            r == self.search_view().len(),
    {
        self.search.len()
    }

    /// The number of stored records.
    pub fn record_count(&self) -> (r: usize)
        ensures
            r == self@.len(),
    {
        self.docs.len()
    }

    /// The id of the stored record carrying this hash, if any: the
    /// deduplication check of the import pipeline.
    pub fn contains_hash(&self, hash: &str) -> (r: Option<DocId>)
        ensures
            r == spec_contains_hash(self@, hash@),
    {
        let ghost m = self@;
        let h = hash.to_owned();
        let mut i: usize = 0;
        assert(m.subrange(0, m.len() as int) =~= m);
        while i < self.docs.len()
            invariant
                0 <= i <= m.len(),
                m == self@,
                m.len() == self.docs@.len(),
                h@ == hash@,
                spec_contains_hash(m, hash@) == spec_contains_hash(
                    m.subrange(i as int, m.len() as int),
                    hash@,
                ),
            decreases m.len() - i,
        {
            let ghost rest = m.subrange(i as int, m.len() as int);
            let ghost rest1 = m.subrange(i + 1 as int, m.len() as int);
            proof {
                assert(rest.first() == m[i as int]);
                assert(rest.drop_first() =~= rest1);
            }
            if self.docs[i].hash == h {
                return Some(self.docs[i].id);
            }
            i = i + 1;
        }
        assert(m.subrange(m.len() as int, m.len() as int) =~= Seq::<DocView>::empty());
        None
    }

    /// The records from `offset` on, at most `count` of them, in
    /// storage order; a window past the end is clamped.
    pub fn get_documents(&self, offset: usize, count: usize) -> (r: Vec<DocumentData>)
        ensures
            docs_view(r) == self@.subrange(
                vstd::math::min(offset as int, self@.len() as int),
                vstd::math::min(offset as int + count as int, self@.len() as int),
            ),
    {
        let lo: usize = if offset < self.docs.len() {
            offset
        } else {
            self.docs.len()
        };
        let hi: usize = if count < self.docs.len() - lo {
            lo + count
        } else {
            self.docs.len()
        };
        let mut r: Vec<DocumentData> = Vec::new();
        let mut i: usize = lo;
        assert(docs_view(r) =~= self@.subrange(lo as int, lo as int));
        while i < hi
            invariant
                lo <= i <= hi <= self@.len(),
                self@.len() == self.docs@.len(),
                docs_view(r) == self@.subrange(lo as int, i as int),
            decreases hi - i,
        {
            let ghost prev = docs_view(r);
            r.push(self.docs[i].duplicate());
            proof {
                assert(docs_view(r) =~= prev.push(self@[i as int]));
                assert(prev.push(self@[i as int]) =~= self@.subrange(lo as int, i + 1 as int));
            }
            i = i + 1;
        }
        r
    }

    /// The filtered, ordered window of the stored records.
    ///
    /// `scores` is the full-text engine's answer for the filter's query
    /// (empty when no query is active). The records kept are exactly
    /// those of [`crate::query::spec_kept`]: score-pruned when a query
    /// is active, then tag-filtered; they are ordered by the effective
    /// sort key, descending, and the `[offset, offset+count)` window of
    /// that ordering is returned, clamped to the end.
    pub fn get_filtered_documents(
        &self,
        offset: usize,
        count: usize,
        filter: &FilterOptions,
        scores: &Vec<(DocId, u64)>,
    ) -> (r: Vec<DocumentData>)
        ensures
            crate::query::filtered_result_ok(
                self@,
                offset as int,
                count as int,
                filter@,
                scores@,
                docs_view(r),
            ),
    {
        let ghost f = filter@;
        let ghost kept = crate::query::spec_kept(self@, f, scores@);
        let is_active = match &filter.query {
            Some(q) => !q.as_str().is_empty(),
            None => false,
        };
        assert(is_active == crate::query::query_active(f));
        let mut cfg = self.get_documents(0, self.docs.len());
        proof {
            assert(self@.subrange(0, self@.len() as int) =~= self@);
            assert(docs_view(cfg) == self@);
        }
        if is_active {
            let mx = crate::query::max_score(scores);
            cfg = crate::query::filter_by_score(cfg, scores, mx);
        }
        if filter.tags.len() > 0 {
            cfg = crate::query::filter_by_tags(cfg, &filter.tags);
        }
        assert(docs_view(cfg) == kept);
        let sel = match filter.sort {
            SortOrder::ImportedDate => crate::query::SortSel::Imported,
            SortOrder::InferredDate => crate::query::SortSel::Inferred,
            SortOrder::NoOrder => {
                if is_active {
                    crate::query::SortSel::Score
                } else {
                    crate::query::SortSel::Imported
                }
            },
        };
        assert(sel == crate::query::effective_sel(f));
        let cfg = crate::query::sort_docs(cfg, sel, scores);
        let ghost sorted_view = docs_view(cfg);
        let lo: usize = if offset < cfg.len() {
            offset
        } else {
            cfg.len()
        };
        let hi: usize = if count < cfg.len() - lo {
            lo + count
        } else {
            cfg.len()
        };
        proof {
            assert(sorted_view.len() == kept.len()) by {
                assert(sorted_view.to_multiset().len() == kept.to_multiset().len());
            }
        }
        let mut r: Vec<DocumentData> = Vec::new();
        let mut i: usize = lo;
        assert(docs_view(r) =~= sorted_view.subrange(lo as int, lo as int));
        while i < hi
            invariant
                lo <= i <= hi <= sorted_view.len(),
                sorted_view == docs_view(cfg),
                sorted_view.len() == cfg@.len(),
                docs_view(r) == sorted_view.subrange(lo as int, i as int),
            decreases hi - i,
        {
            let ghost prev = docs_view(r);
            r.push(cfg[i].duplicate());
            proof {
                assert(docs_view(r) =~= prev.push(sorted_view[i as int]));
                assert(prev.push(sorted_view[i as int]) =~= sorted_view.subrange(
                    lo as int,
                    i + 1 as int,
                ));
            }
            i = i + 1;
        }
        proof {
            let rv = docs_view(r);
            assert(rv == sorted_view.subrange(lo as int, hi as int));
            assert forall|a: int, b: int|
                0 <= a <= b < rv.len() implies crate::query::spec_key(
                crate::query::effective_sel(f),
                scores@,
                #[trigger] rv[a],
            ) >= crate::query::spec_key(crate::query::effective_sel(f), scores@, #[trigger] rv[b])
                by {
                assert(rv[a] == sorted_view[lo + a]);
                assert(rv[b] == sorted_view[lo + b]);
            }
            if offset == 0 && kept.len() <= count {
                assert(rv =~= sorted_view);
            }
            assert(sorted_view.to_multiset() == kept.to_multiset()
                && crate::query::sorted_by(crate::query::effective_sel(f), scores@, sorted_view)
                && rv == sorted_view.subrange(
                vstd::math::min(offset as int, kept.len() as int),
                vstd::math::min(offset as int + count as int, kept.len() as int),
            ));
            broadcast use vstd::seq_lib::group_to_multiset_ensures;

            crate::query::lemma_keep_score_pred(
                if crate::query::query_active(f) {
                    self@
                } else {
                    kept
                },
                scores@,
                crate::query::spec_max_score(scores@),
            );
            assert forall|i2: int| 0 <= i2 < rv.len() implies kept.contains(
                #[trigger] rv[i2],
            ) by {
                assert(rv[i2] == sorted_view[lo + i2]);
                assert(sorted_view.contains(sorted_view[lo + i2]));
                assert(sorted_view.to_multiset().count(sorted_view[lo + i2]) > 0);
                assert(kept.to_multiset().count(sorted_view[lo + i2]) > 0);
            }
            if crate::query::query_active(f) {
                let mx = crate::query::spec_max_score(scores@);
                let s1 = crate::query::keep_by_score(self@, scores@, mx);
                crate::query::lemma_keep_score_pred(self@, scores@, mx);
                assert forall|i2: int| 0 <= i2 < rv.len() implies crate::query::score_keep(
                    scores@,
                    mx,
                    #[trigger] rv[i2],
                ) by {
                    assert(kept.contains(rv[i2]));
                    if f.tags.len() > 0 {
                        let j = choose|j: int| 0 <= j < kept.len() && kept[j] == rv[i2];
                        crate::query::lemma_keep_tags_sub(s1, f.tags, j);
                        let k = choose|k: int| 0 <= k < s1.len() && s1[k] == kept[j];
                    } else {
                        let j = choose|j: int| 0 <= j < kept.len() && kept[j] == rv[i2];
                    }
                }
            }
            if f.tags.len() > 0 {
                let s1 = if crate::query::query_active(f) {
                    crate::query::keep_by_score(
                        self@,
                        scores@,
                        crate::query::spec_max_score(scores@),
                    )
                } else {
                    self@
                };
                crate::query::lemma_keep_tags_pred(s1, f.tags);
                assert forall|i2: int| 0 <= i2 < rv.len() implies crate::query::tags_has_all(
                    (#[trigger] rv[i2]).tags,
                    f.tags,
                ) by {
                    assert(kept.contains(rv[i2]));
                    let j = choose|j: int| 0 <= j < kept.len() && kept[j] == rv[i2];
                }
            }
        }
        r
    }

    /// Removes every record of `id` from `v` and appends `d`.
    fn upsert_record(v: &mut Vec<DocumentData>, d: DocumentData)
        ensures
            docs_view(*final(v)) == docs_remove(docs_view(*old(v)), d@.id).push(d@),
    {
        let id = d.id;
        Self::remove_record(v, id);
        let ghost removed = docs_view(*v);
        v.push(d);
        proof {
            assert(docs_view(*v) =~= removed.push(d@));
        }
    }

    /// Removes every record of `id` from `v`.
    fn remove_record(v: &mut Vec<DocumentData>, id: DocId)
        ensures
            docs_view(*final(v)) == docs_remove(docs_view(*old(v)), id),
    {
        let ghost m = docs_view(*old(v));
        let mut out: Vec<DocumentData> = Vec::new();
        let mut i: usize = 0;
        assert(docs_view(out) =~= docs_remove(m.subrange(0, 0), id));
        while i < v.len()
            invariant
                0 <= i <= m.len(),
                m == docs_view(*v),
                m.len() == v@.len(),
                docs_view(out) == docs_remove(m.subrange(0, i as int), id),
            decreases m.len() - i,
        {
            let ghost pre = m.subrange(0, i as int);
            let ghost pre1 = m.subrange(0, i + 1 as int);
            proof {
                assert(pre1.drop_last() =~= pre);
                assert(pre1.last() == m[i as int]);
            }
            if v[i].id != id {
                let ghost prev = docs_view(out);
                out.push(v[i].duplicate());
                proof {
                    assert(docs_view(out) =~= prev.push(m[i as int]));
                }
            }
            i = i + 1;
        }
        assert(m.subrange(0, m.len() as int) =~= m);
        *v = out;
    }

    proof fn lemma_wf_after_upsert(docs: Seq<DocView>, search: Seq<DocId>, d: DocView)
        requires
            docs_unique_ids(docs),
            docs_unique_hashes(docs),
            crate::search_index::ids_unique(search),
            forall|i: int| 0 <= i < search.len() ==> spec_get(docs, #[trigger] search[i]) is Some,
            forall|i: int|
                0 <= i < docs.len() ==> ((#[trigger] docs[i]).hash == d.hash ==> docs[i].id
                    == d.id),
        ensures
            docs_unique_ids(docs_remove(docs, d.id).push(spec_persisted(d))),
            docs_unique_hashes(docs_remove(docs, d.id).push(spec_persisted(d))),
            crate::search_index::ids_unique(ids_remove(search, d.id).push(d.id)),
            crate::search_index::ids_unique(ids_remove(search, d.id)),
            forall|i: int|
                0 <= i < ids_remove(search, d.id).push(d.id).len() ==> spec_get(
                    docs_remove(docs, d.id).push(spec_persisted(d)),
                    #[trigger] ids_remove(search, d.id).push(d.id)[i],
                ) is Some,
            forall|i: int|
                0 <= i < ids_remove(search, d.id).len() ==> spec_get(
                    docs_remove(docs, d.id).push(spec_persisted(d)),
                    #[trigger] ids_remove(search, d.id)[i],
                ) is Some,
    {
        lemma_docs_remove_unique(docs, d.id);
        lemma_docs_remove_hash_gone(docs, d.id, d.hash);
        crate::search_index::lemma_ids_remove_gone(search, d.id);
        crate::search_index::lemma_ids_remove_unique(search, d.id);
        let newdocs = docs_remove(docs, d.id).push(spec_persisted(d));
        assert forall|i: int| 0 <= i < ids_remove(search, d.id).len() implies spec_get(
            newdocs,
            #[trigger] ids_remove(search, d.id)[i],
        ) is Some by {
            let sid = ids_remove(search, d.id)[i];
            lemma_ids_remove_sub(search, d.id, i);
            assert(spec_get(docs, sid) is Some);
            lemma_docs_remove_get_other(docs, d.id, sid);
            lemma_get_push(docs_remove(docs, d.id), spec_persisted(d), sid);
        }
        assert forall|i: int| 0 <= i < ids_remove(search, d.id).push(d.id).len() implies spec_get(
            newdocs,
            #[trigger] ids_remove(search, d.id).push(d.id)[i],
        ) is Some by {
            let s2 = ids_remove(search, d.id).push(d.id);
            if i < s2.len() - 1 {
                let sid = s2[i];
                assert(sid == ids_remove(search, d.id)[i]);
            } else {
                lemma_get_of_push_id(docs_remove(docs, d.id), spec_persisted(d));
            }
        }
    }

    proof fn lemma_wf_after_update(docs: Seq<DocView>, search: Seq<DocId>, d: DocView)
        requires
            docs_unique_ids(docs),
            docs_unique_hashes(docs),
            crate::search_index::ids_unique(search),
            forall|i: int| 0 <= i < search.len() ==> spec_get(docs, #[trigger] search[i]) is Some,
            forall|i: int|
                0 <= i < docs.len() ==> ((#[trigger] docs[i]).hash == d.hash ==> docs[i].id
                    == d.id),
        ensures
            docs_unique_ids(docs_remove(docs, d.id).push(spec_persisted(d))),
            docs_unique_hashes(docs_remove(docs, d.id).push(spec_persisted(d))),
            forall|i: int|
                0 <= i < search.len() ==> spec_get(
                    docs_remove(docs, d.id).push(spec_persisted(d)),
                    #[trigger] search[i],
                ) is Some,
    {
        lemma_docs_remove_unique(docs, d.id);
        lemma_docs_remove_hash_gone(docs, d.id, d.hash);
        let newdocs = docs_remove(docs, d.id).push(spec_persisted(d));
        assert forall|i: int| 0 <= i < search.len() implies spec_get(
            newdocs,
            #[trigger] search[i],
        ) is Some by {
            let sid = search[i];
            if sid == d.id {
                lemma_get_of_push_id(docs_remove(docs, d.id), spec_persisted(d));
            } else {
                lemma_docs_remove_get_other(docs, d.id, sid);
                lemma_get_push(docs_remove(docs, d.id), spec_persisted(d), sid);
            }
        }
    }
}

/// The body-free forms of a record sequence.
pub open spec fn docs_persisted(docs: Seq<DocView>) -> Seq<DocView> {
    docs.map_values(|d: DocView| spec_persisted(d))
}

/// Removing an id no record carries changes nothing.
pub proof fn lemma_docs_remove_absent(docs: Seq<DocView>, id: DocId)
    requires
        forall|i: int| 0 <= i < docs.len() ==> (#[trigger] docs[i]).id != id,
    ensures
        docs_remove(docs, id) == docs,
    decreases docs.len(),
{
    if docs.len() > 0 {
        let d = docs.drop_last();
        assert(forall|i: int| 0 <= i < d.len() ==> d[i] == #[trigger] docs[i]);
        lemma_docs_remove_absent(d, id);
        assert(docs[docs.len() - 1].id != id);
        assert(docs_remove(docs, id) =~= docs);
    }
}

/// After a removal no record carries the id.
pub proof fn lemma_docs_remove_gone(docs: Seq<DocView>, id: DocId)
    ensures
        forall|i: int|
            0 <= i < docs_remove(docs, id).len() ==> (#[trigger] docs_remove(docs, id)[i]).id
                != id,
    decreases docs.len(),
{
    if docs.len() > 0 {
        lemma_docs_remove_gone(docs.drop_last(), id);
    }
}

/// A removal keeps uniqueness of ids and hashes, keeps every record a
/// record of the original, and drops nothing else.
pub proof fn lemma_docs_remove_unique(docs: Seq<DocView>, id: DocId)
    ensures
        forall|i: int|
            0 <= i < docs_remove(docs, id).len() ==> (#[trigger] docs_remove(docs, id)[i]).id
                != id,
        docs_unique_ids(docs) ==> docs_unique_ids(docs_remove(docs, id)),
        docs_unique_hashes(docs) ==> docs_unique_hashes(docs_remove(docs, id)),
        forall|i: int|
            0 <= i < docs_remove(docs, id).len() ==> docs.contains(
                #[trigger] docs_remove(docs, id)[i],
            ),
        docs_unique_ids(docs) ==> (docs_unique_ids(docs_remove(docs, id).push(
            DocView { id, ..arbitrary() },
        ))),
    decreases docs.len(),
{
    lemma_docs_remove_gone(docs, id);
    if docs.len() > 0 {
        let d = docs.drop_last();
        lemma_docs_remove_unique(d, id);
        assert(forall|i: int| 0 <= i < d.len() ==> d[i] == #[trigger] docs[i]);
        assert forall|i: int|
            0 <= i < docs_remove(docs, id).len() implies docs.contains(
            #[trigger] docs_remove(docs, id)[i],
        ) by {
            let rem = docs_remove(docs, id);
            let remd = docs_remove(d, id);
            if docs.last().id == id {
                assert(rem[i] == remd[i]);
                assert(d.contains(rem[i]));
                let j = choose|j: int| 0 <= j < d.len() && d[j] == rem[i];
                assert(docs[j] == rem[i]);
            } else {
                if i < rem.len() - 1 {
                    assert(rem[i] == remd[i]);
                    assert(d.contains(rem[i]));
                    let j = choose|j: int| 0 <= j < d.len() && d[j] == rem[i];
                    assert(docs[j] == rem[i]);
                } else {
                    assert(rem[i] == docs.last());
                    assert(docs[docs.len() - 1] == docs.last());
                }
            }
        }
        if docs_unique_ids(docs) {
            assert(docs_unique_ids(d));
            assert forall|i: int, j: int|
                0 <= i < j < docs_remove(docs, id).len() implies (#[trigger] docs_remove(
                docs,
                id,
            )[i]).id != (#[trigger] docs_remove(docs, id)[j]).id by {
                let rem = docs_remove(docs, id);
                let remd = docs_remove(d, id);
                if docs.last().id != id && j == rem.len() - 1 {
                    assert(rem[j] == docs.last());
                    assert(rem[i] == remd[i]);
                    assert(d.contains(rem[i]));
                    let k = choose|k: int| 0 <= k < d.len() && d[k] == rem[i];
                    assert(docs[k].id == rem[i].id);
                    assert(docs[docs.len() - 1].id == docs.last().id);
                }
            }
        }
        if docs_unique_hashes(docs) {
            assert(docs_unique_hashes(d));
            assert forall|i: int, j: int|
                0 <= i < j < docs_remove(docs, id).len() implies (#[trigger] docs_remove(
                docs,
                id,
            )[i]).hash != (#[trigger] docs_remove(docs, id)[j]).hash by {
                let rem = docs_remove(docs, id);
                let remd = docs_remove(d, id);
                if docs.last().id != id && j == rem.len() - 1 {
                    assert(rem[j] == docs.last());
                    assert(rem[i] == remd[i]);
                    assert(d.contains(rem[i]));
                    let k = choose|k: int| 0 <= k < d.len() && d[k] == rem[i];
                    assert(docs[k].hash == rem[i].hash);
                    assert(docs[docs.len() - 1].hash == docs.last().hash);
                }
            }
        }
    }
}

/// If every record carrying the hash has the removed id, no record of
/// the removal carries the hash.
pub proof fn lemma_docs_remove_hash_gone(docs: Seq<DocView>, id: DocId, hash: Seq<char>)
    requires
        forall|i: int|
            0 <= i < docs.len() ==> ((#[trigger] docs[i]).hash == hash ==> docs[i].id == id),
    ensures
        forall|i: int|
            0 <= i < docs_remove(docs, id).len() ==> (#[trigger] docs_remove(docs, id)[i]).hash
                != hash,
    decreases docs.len(),
{
    if docs.len() > 0 {
        let d = docs.drop_last();
        assert(forall|i: int| 0 <= i < d.len() ==> d[i] == #[trigger] docs[i]);
        lemma_docs_remove_hash_gone(d, id, hash);
    }
}

/// Removal commutes with lookup of another id.
pub proof fn lemma_docs_remove_get_other(docs: Seq<DocView>, id: DocId, other: DocId)
    requires
        docs_unique_ids(docs),
        other != id,
    ensures
        spec_get(docs_remove(docs, id), other) == spec_get(docs, other),
    decreases docs.len(),
{
    lemma_docs_remove_unique(docs, id);
    lemma_get_by_index(docs, other);
    lemma_get_by_index(docs_remove(docs, id), other);
    match spec_get(docs, other) {
        Some(d) => {
            let i = choose|i: int| 0 <= i < docs.len() && docs[i].id == other && docs[i] == d;
            lemma_docs_remove_contains(docs, id, i);
            let rem = docs_remove(docs, id);
            assert(rem.contains(docs[i]));
            let j = choose|j: int| 0 <= j < rem.len() && rem[j] == docs[i];
            assert(spec_get(rem, other) is Some) by {
                lemma_get_some_iff(rem, other);
            }
            let e = spec_get(rem, other).unwrap();
            let k = choose|k: int| 0 <= k < rem.len() && rem[k].id == other && rem[k] == e;
            assert(docs.contains(rem[k]));
            let l = choose|l: int| 0 <= l < docs.len() && docs[l] == rem[k];
            assert(docs[l].id == other && docs[i].id == other);
            assert(docs[l] == docs[i]);
        },
        None => {
            lemma_get_some_iff(docs, other);
            lemma_get_some_iff(docs_remove(docs, id), other);
            if spec_get(docs_remove(docs, id), other) is Some {
                let e = spec_get(docs_remove(docs, id), other).unwrap();
                let k = choose|k: int|
                    0 <= k < docs_remove(docs, id).len() && docs_remove(docs, id)[k].id == other;
                assert(docs.contains(docs_remove(docs, id)[k]));
                let l = choose|l: int| 0 <= l < docs.len() && docs[l] == docs_remove(docs, id)[k];
                assert(docs[l].id == other);
            }
        },
    }
}

/// A kept record is still in the removal.
pub proof fn lemma_docs_remove_contains(docs: Seq<DocView>, id: DocId, i: int)
    requires
        0 <= i < docs.len(),
        docs[i].id != id,
    ensures
        docs_remove(docs, id).contains(docs[i]),
    decreases docs.len(),
{
    if docs.len() > 0 {
        let d = docs.drop_last();
        let rem = docs_remove(docs, id);
        let remd = docs_remove(d, id);
        if i == docs.len() - 1 {
            assert(rem[rem.len() - 1] == docs[i]);
        } else {
            assert(d[i] == docs[i]);
            lemma_docs_remove_contains(d, id, i);
            let j = choose|j: int| 0 <= j < remd.len() && remd[j] == docs[i];
            if docs.last().id == id {
                assert(rem[j] == docs[i]);
            } else {
                assert(rem[j] == docs[i]);
            }
        }
    }
}

/// A lookup succeeds exactly when some record carries the id, and what
/// it returns is a record of the sequence carrying the id.
pub proof fn lemma_get_some_iff(docs: Seq<DocView>, id: DocId)
    ensures
        (spec_get(docs, id) is Some) <==> (exists|i: int|
            0 <= i < docs.len() && (#[trigger] docs[i]).id == id),
    decreases docs.len(),
{
    if docs.len() > 0 {
        lemma_get_some_iff(docs.drop_first(), id);
        if docs.first().id == id {
            assert(docs[0].id == id);
        } else {
            let d = docs.drop_first();
            if spec_get(docs, id) is Some {
                let i = choose|i: int| 0 <= i < d.len() && (#[trigger] d[i]).id == id;
                assert(docs[i + 1].id == id);
            } else {
                if exists|i: int| 0 <= i < docs.len() && (#[trigger] docs[i]).id == id {
                    let i = choose|i: int| 0 <= i < docs.len() && (#[trigger] docs[i]).id == id;
                    assert(i > 0);
                    assert(d[i - 1].id == id);
                }
            }
        }
    }
}

/// Under unique ids, the lookup's record is the one at any index
/// carrying the id.
pub proof fn lemma_get_by_index(docs: Seq<DocView>, id: DocId)
    requires
        docs_unique_ids(docs),
    ensures
        spec_get(docs, id) matches Some(d) ==> exists|i: int|
            0 <= i < docs.len() && (#[trigger] docs[i]).id == id && docs[i] == d,
        spec_get(docs, id) matches Some(d) ==> d.id == id && docs.contains(d),
    decreases docs.len(),
{
    if docs.len() > 0 {
        let d = docs.drop_first();
        assert(docs_unique_ids(d)) by {
            assert(forall|i: int| 0 <= i < d.len() ==> d[i] == #[trigger] docs[i + 1]);
        }
        lemma_get_by_index(d, id);
        if docs.first().id == id {
            assert(docs[0] == docs.first());
            assert(docs.contains(docs.first()));
        } else {
            if spec_get(docs, id) is Some {
                let e = spec_get(docs, id).unwrap();
                let i = choose|i: int| 0 <= i < d.len() && (#[trigger] d[i]).id == id && d[i] == e;
                assert(docs[i + 1].id == id && docs[i + 1] == e);
                assert(docs.contains(docs[i + 1]));
            }
        }
    }
}

/// Appending a record of another id leaves a lookup unchanged.
pub proof fn lemma_get_push(docs: Seq<DocView>, d: DocView, id: DocId)
    requires
        d.id != id,
    ensures
        spec_get(docs.push(d), id) == spec_get(docs, id),
    decreases docs.len(),
{
    let p = docs.push(d);
    if docs.len() == 0 {
        assert(p.first() == d);
        assert(p.drop_first() =~= Seq::<DocView>::empty());
    } else {
        assert(p.first() == docs.first());
        assert(p.drop_first() =~= docs.drop_first().push(d));
        lemma_get_push(docs.drop_first(), d, id);
        if docs.first().id == id {
            assert(spec_get(p, id) == Some(p.first()));
            assert(spec_get(docs, id) == Some(docs.first()));
        } else {
            assert(spec_get(p, id) == spec_get(p.drop_first(), id));
            assert(spec_get(docs, id) == spec_get(docs.drop_first(), id));
        }
    }
}

/// Looking up the id of a freshly appended record finds it, when no
/// earlier record carries the id.
pub proof fn lemma_get_of_push_id(docs: Seq<DocView>, d: DocView)
    requires
        forall|i: int| 0 <= i < docs.len() ==> (#[trigger] docs[i]).id != d.id,
    ensures
        spec_get(docs.push(d), d.id) == Some(d),
    decreases docs.len(),
{
    let p = docs.push(d);
    if docs.len() == 0 {
        assert(p.first() == d);
    } else {
        assert(p.first() == docs.first());
        assert(docs[0].id != d.id);
        assert(p.drop_first() =~= docs.drop_first().push(d));
        assert(forall|i: int|
            0 <= i < docs.drop_first().len() ==> (#[trigger] docs.drop_first()[i]).id != d.id)
            by {
            assert(forall|i: int|
                0 <= i < docs.drop_first().len() ==> docs.drop_first()[i] == #[trigger] docs[i
                    + 1]);
        }
        lemma_get_of_push_id(docs.drop_first(), d);
    }
}

/// Adding a record and looking its id up returns its persisted form.
pub proof fn lemma_add_then_get(docs: Seq<DocView>, d: DocView)
    ensures
        spec_get(docs_remove(docs, d.id).push(spec_persisted(d)), d.id) == Some(spec_persisted(d)),
{
    lemma_docs_remove_gone(docs, d.id);
    lemma_get_of_push_id(docs_remove(docs, d.id), spec_persisted(d));
}

/// A hash probe fails exactly when no record carries the hash.
pub proof fn lemma_contains_hash_none(docs: Seq<DocView>, h: Seq<char>)
    ensures
        (spec_contains_hash(docs, h) is None) <==> (forall|i: int|
            0 <= i < docs.len() ==> (#[trigger] docs[i]).hash != h),
    decreases docs.len(),
{
    if docs.len() > 0 {
        let d = docs.drop_first();
        lemma_contains_hash_none(d, h);
        if docs.first().hash == h {
            assert(docs[0].hash == h);
        } else {
            if spec_contains_hash(docs, h) is None {
                assert forall|i: int| 0 <= i < docs.len() implies (#[trigger] docs[i]).hash
                    != h by {
                    if i > 0 {
                        assert(d[i - 1] == docs[i]);
                    }
                }
            } else {
                if forall|i: int| 0 <= i < docs.len() ==> (#[trigger] docs[i]).hash != h {
                    assert(forall|i: int| 0 <= i < d.len() ==> d[i] == #[trigger] docs[i + 1]);
                }
            }
        }
    }
}

/// Under unique hashes, a hash probe returns the id of the one record
/// carrying the hash.
pub proof fn lemma_contains_hash_unique(docs: Seq<DocView>, h: Seq<char>, i: int)
    requires
        docs_unique_hashes(docs),
        0 <= i < docs.len(),
        docs[i].hash == h,
    ensures
        spec_contains_hash(docs, h) == Some(docs[i].id),
    decreases docs.len(),
{
    if docs.first().hash == h {
        assert(docs[0].hash == h);
        assert(i == 0);
    } else {
        let d = docs.drop_first();
        assert(docs_unique_hashes(d)) by {
            assert(forall|k: int| 0 <= k < d.len() ==> d[k] == #[trigger] docs[k + 1]);
        }
        assert(i > 0);
        assert(d[i - 1] == docs[i]);
        lemma_contains_hash_unique(d, h, i - 1);
    }
}

/// A successful hash probe names a stored record carrying the hash.
pub proof fn lemma_contains_hash_witness(docs: Seq<DocView>, h: Seq<char>)
    requires
        spec_contains_hash(docs, h) is Some,
    ensures
        exists|i: int|
            0 <= i < docs.len() && (#[trigger] docs[i]).hash == h && docs[i].id
                == spec_contains_hash(docs, h).unwrap(),
    decreases docs.len(),
{
    if docs.len() > 0 {
        if docs.first().hash == h {
            assert(docs[0].hash == h && docs[0].id == spec_contains_hash(docs, h).unwrap());
        } else {
            let d = docs.drop_first();
            lemma_contains_hash_witness(d, h);
            let i = choose|i: int|
                0 <= i < d.len() && (#[trigger] d[i]).hash == h && d[i].id == spec_contains_hash(
                    d,
                    h,
                ).unwrap();
            assert(docs[i + 1].hash == h && docs[i + 1].id == spec_contains_hash(
                docs,
                h,
            ).unwrap());
        }
    }
}

/// An element of a removal of ids is an element of the original.
pub proof fn lemma_ids_remove_sub(s: Seq<DocId>, id: DocId, i: int)
    requires
        0 <= i < ids_remove(s, id).len(),
    ensures
        s.contains(ids_remove(s, id)[i]),
    decreases s.len(),
{
    if s.len() > 0 {
        let d = s.drop_last();
        let rem = ids_remove(s, id);
        let remd = ids_remove(d, id);
        if s.last() != id && i == rem.len() - 1 {
            assert(rem[i] == s.last());
            assert(s[s.len() - 1] == s.last());
        } else {
            assert(rem[i] == remd[i]);
            lemma_ids_remove_sub(d, id, i);
            let j = choose|j: int| 0 <= j < d.len() && d[j] == remd[i];
            assert(s[j] == remd[i]);
        }
    }
}

} // verus!
