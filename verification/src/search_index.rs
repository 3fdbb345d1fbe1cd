//! An exact model of the search engine's contents: which document ids
//! are live in the full-text index. The scoring engine itself runs
//! outside the library and reports its results as plain `(id, score)`
//! pairs; this model is what the repository's invariants and counts
//! rest on.

use vstd::prelude::*;
use crate::DocId;

verus! {

/// Removes every occurrence of `id`.
pub open spec fn ids_remove(s: Seq<DocId>, id: DocId) -> Seq<DocId>
    decreases s.len(),
{
    if s.len() == 0 {
        s
    } else {
        let rest = ids_remove(s.drop_last(), id);
        if s.last() == id {
            rest
        } else {
            rest.push(s.last())
        }
    }
}

pub open spec fn ids_unique(s: Seq<DocId>) -> bool {
    forall|i: int, j: int| 0 <= i < j < s.len() ==> s[i] != s[j]
}

/// The set of documents the search index holds, by id.
pub struct SearchIndex {
    entries: Vec<DocId>,
}

impl SearchIndex {
    /// The mathematical view: the indexed ids, in indexing order.
    pub closed spec fn view(&self) -> Seq<DocId> {
        self.entries@
    }

    pub open spec fn wf(&self) -> bool {
        ids_unique(self@)
    }

    pub open spec fn spec_contains(&self, id: DocId) -> bool {
        self@.contains(id)
    }

    /// An empty index.
    pub fn new() -> (r: SearchIndex)
        ensures
            r@ =~= Seq::<DocId>::empty(),
            r.wf(),
    {
        SearchIndex { entries: Vec::new() }
    }

    /// Upserts a document: any entry of this id is deleted, then the id
    /// is added. After the call the id is indexed exactly once.
    pub fn upsert(&mut self, id: DocId)
        ensures
            final(self)@ == ids_remove(old(self)@, id).push(id),
            old(self).wf() ==> final(self).wf(),
    {
        self.remove(id);
        self.entries.push(id);
        proof {
            lemma_ids_remove_gone(old(self)@, id);
        }
    }

    /// Deletes any entry of this id; absence is a no-op.
    pub fn remove(&mut self, id: DocId)
        ensures
            final(self)@ == ids_remove(old(self)@, id),
            old(self).wf() ==> final(self).wf(),
    {
        let ghost m = self@;
        let mut out: Vec<DocId> = Vec::new();
        let mut i: usize = 0;
        assert(out@ =~= ids_remove(m.subrange(0, 0), id));
        while i < self.entries.len()
            invariant
                0 <= i <= m.len(),
                m == self@,
                m.len() == self.entries@.len(),
                out@ == ids_remove(m.subrange(0, i as int), id),
                forall|k: int, l: int|
                    0 <= k < out@.len() && 0 <= l < m.len() && (#[trigger] m[l]) != id ==> ((
                    #[trigger] out@[k]) == m[l] ==> exists|j: int| 0 <= j < i && m[j] == out@[k]),
                ids_unique(m) ==> ids_unique(out@),
            decreases m.len() - i,
        {
            let ghost pre = m.subrange(0, i as int);
            let ghost pre1 = m.subrange(0, i + 1 as int);
            proof {
                assert(pre1.drop_last() =~= pre);
                assert(pre1.last() == m[i as int]);
            }
            if self.entries[i] != id {
                out.push(self.entries[i]);
            }
            i = i + 1;
        }
        assert(m.subrange(0, m.len() as int) =~= m);
        self.entries = out;
    }

    /// The number of indexed documents.
    pub fn len(&self) -> (r: usize)
        ensures
            r == self@.len(),
    {
        self.entries.len()
    }

    /// Whether a document is indexed.
    pub fn contains(&self, id: DocId) -> (r: bool)
        ensures
            r == self.spec_contains(id),
    {
        let mut i: usize = 0;
        while i < self.entries.len()
            invariant
                0 <= i <= self@.len(),
                self@.len() == self.entries@.len(),
                forall|j: int| 0 <= j < i ==> self@[j] != id,
            decreases self@.len() - i,
        {
            if self.entries[i] == id {
                assert(self.spec_contains(id));
                return true;
            }
            i = i + 1;
        }
        false
    }
}

/// After a removal the id is gone.
pub proof fn lemma_ids_remove_gone(s: Seq<DocId>, id: DocId)
    ensures
        forall|i: int| 0 <= i < ids_remove(s, id).len() ==> ids_remove(s, id)[i] != id,
        !ids_remove(s, id).contains(id),
    decreases s.len(),
{
    if s.len() > 0 {
        lemma_ids_remove_gone(s.drop_last(), id);
    }
}

/// A removal keeps a sequence duplicate-free, and appending the removed
/// id afterwards keeps it so too.
pub proof fn lemma_ids_remove_unique(s: Seq<DocId>, id: DocId)
    requires
        ids_unique(s),
    ensures
        ids_unique(ids_remove(s, id)),
        ids_unique(ids_remove(s, id).push(id)),
    decreases s.len(),
{
    lemma_ids_remove_gone(s, id);
    if s.len() > 0 {
        let d = s.drop_last();
        assert(ids_unique(d)) by {
            assert(forall|i: int| 0 <= i < d.len() ==> d[i] == #[trigger] s[i]);
        }
        lemma_ids_remove_unique(d, id);
        let rem = ids_remove(s, id);
        let remd = ids_remove(d, id);
        if s.last() != id {
            assert forall|i: int, j: int| 0 <= i < j < rem.len() implies rem[i] != rem[j] by {
                if j == rem.len() - 1 {
                    assert(rem[j] == s.last());
                    assert(rem[i] == remd[i]);
                    lemma_ids_remove_sub_ids(d, id, i);
                    let k = choose|k: int| 0 <= k < d.len() && d[k] == remd[i];
                    assert(s[k] == remd[i]);
                    assert(s[s.len() - 1] == s.last());
                }
            }
        }
    }
}

/// An element of a removal is an element of the original.
pub proof fn lemma_ids_remove_sub_ids(s: Seq<DocId>, id: DocId, i: int)
    requires
        0 <= i < ids_remove(s, id).len(),
    ensures
        s.contains(ids_remove(s, id)[i]),
    decreases s.len(),
{
    if s.len() > 0 {
        let d = s.drop_last();
        let rem = ids_remove(s, id);
        let remd = ids_remove(d, id);
        if s.last() != id && i == rem.len() - 1 {
            assert(rem[i] == s.last());
            assert(s[s.len() - 1] == s.last());
        } else {
            assert(rem[i] == remd[i]);
            lemma_ids_remove_sub_ids(d, id, i);
            let j = choose|j: int| 0 <= j < d.len() && d[j] == remd[i];
            assert(s[j] == remd[i]);
        }
    }
}

/// Removing a present id from a duplicate-free sequence shortens it by
/// one; removing an absent id changes nothing.
pub proof fn lemma_ids_remove_len(s: Seq<DocId>, id: DocId)
    requires
        ids_unique(s),
    ensures
        s.contains(id) ==> ids_remove(s, id).len() == s.len() - 1,
        !s.contains(id) ==> ids_remove(s, id) == s,
    decreases s.len(),
{
    if s.len() > 0 {
        assert(ids_unique(s.drop_last()));
        lemma_ids_remove_len(s.drop_last(), id);
        if s.last() == id {
            assert(!s.drop_last().contains(id)) by {
                if s.drop_last().contains(id) {
                    let j = choose|j: int|
                        0 <= j < s.drop_last().len() && s.drop_last()[j] == id;
                    assert(s[j] == id);
                }
            }
        } else {
            if s.contains(id) {
                let j = choose|j: int| 0 <= j < s.len() && s[j] == id;
                assert(s.drop_last()[j] == id);
                assert(s.drop_last().contains(id));
            } else {
                assert(ids_remove(s, id) =~= s) by {
                    assert(!s.drop_last().contains(id)) by {
                        if s.drop_last().contains(id) {
                            let j = choose|j: int|
                                0 <= j < s.drop_last().len() && s.drop_last()[j] == id;
                            assert(s[j] == id);
                        }
                    }
                }
            }
        }
    }
}

} // verus!
