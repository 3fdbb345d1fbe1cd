//! The local file repository: the map from document id to the stored
//! file's path. The library keeps the registry and decides the paths;
//! the caller copies and deletes the files themselves.

use vstd::prelude::*;
use crate::DocId;
use crate::text::{spec_file_stem, spec_parse_u64, spec_u64_string};

verus! {

/// An error of the local file repository.
#[derive(Debug, Clone)]
pub enum LocalFileRepositoryError {
    /// The document directory could not be read.
    DocumentDirectoryRead(String),
    /// A directory entry has no usable file name.
    ExtractFilenameError(String),
    /// A directory entry's name is not valid text.
    ConvertFilenameError(String),
    /// A directory entry's stem does not parse as an id.
    ParseIdError(String),
    /// No document with this id is registered.
    DocumentNotFoundError(DocId),
}

/// An error of a file repository.
#[derive(Debug, Clone)]
pub enum FileRepositoryError {
    FileRepoError(LocalFileRepositoryError),
}

/// Removes every entry with this id from a registry.
pub open spec fn repo_remove(m: Seq<(DocId, Seq<char>)>, id: DocId) -> Seq<(DocId, Seq<char>)>
    decreases m.len(),
{
    if m.len() == 0 {
        m
    } else {
        let rest = repo_remove(m.drop_last(), id);
        if m.last().0 == id {
            rest
        } else {
            rest.push(m.last())
        }
    }
}

/// Replaces or appends the entry of this id.
pub open spec fn repo_upsert(
    m: Seq<(DocId, Seq<char>)>,
    id: DocId,
    path: Seq<char>,
) -> Seq<(DocId, Seq<char>)> {
    repo_remove(m, id).push((id, path))
}

/// The path registered for this id, scanning from the front.
pub open spec fn repo_get(m: Seq<(DocId, Seq<char>)>, id: DocId) -> Option<Seq<char>>
    decreases m.len(),
{
    if m.len() == 0 {
        None
    } else if m.first().0 == id {
        Some(m.first().1)
    } else {
        repo_get(m.drop_first(), id)
    }
}

pub open spec fn repo_contains(m: Seq<(DocId, Seq<char>)>, id: DocId) -> bool {
    repo_get(m, id) is Some
}

/// A registry is well formed when no id occurs twice.
pub open spec fn repo_wf(m: Seq<(DocId, Seq<char>)>) -> bool {
    forall|i: int, j: int| 0 <= i < j < m.len() ==> (#[trigger] m[i]).0 != (#[trigger] m[j]).0
}

/// Whether a directory listing can be loaded: every entry's stem either
/// is the reserved name `documents` or parses as an id.
pub open spec fn entries_ok(entries: Seq<Seq<char>>) -> bool {
    forall|i: int|
        0 <= i < entries.len() ==> (spec_file_stem(#[trigger] entries[i]) == "documents"@
            || spec_parse_u64(spec_file_stem(entries[i])) is Some)
}

/// The registry a directory listing loads to, later entries of an id
/// replacing earlier ones; entries that do not parse are passed over.
pub open spec fn spec_load(dir: Seq<char>, entries: Seq<Seq<char>>) -> Seq<(DocId, Seq<char>)>
    decreases entries.len(),
{
    if entries.len() == 0 {
        seq![]
    } else {
        let prev = spec_load(dir, entries.drop_last());
        let e = entries.last();
        if spec_file_stem(e) == "documents"@ {
            prev
        } else {
            match spec_parse_u64(spec_file_stem(e)) {
                Some(id) => repo_upsert(prev, id, dir + "/"@ + e),
                None => prev,
            }
        }
    }
}

/// A registry lookup succeeds exactly when some entry carries the id.
pub proof fn lemma_repo_get_some_iff(m: Seq<(DocId, Seq<char>)>, id: DocId)
    ensures
        (repo_get(m, id) is Some) <==> (exists|k: int|
            0 <= k < m.len() && (#[trigger] m[k]).0 == id),
    decreases m.len(),
{
    if m.len() > 0 {
        let d = m.drop_first();
        lemma_repo_get_some_iff(d, id);
        if m.first().0 == id {
            assert(m[0].0 == id);
        } else {
            if repo_get(m, id) is Some {
                let k = choose|k: int| 0 <= k < d.len() && (#[trigger] d[k]).0 == id;
                assert(m[k + 1].0 == id);
            } else {
                if exists|k: int| 0 <= k < m.len() && (#[trigger] m[k]).0 == id {
                    let k = choose|k: int| 0 <= k < m.len() && (#[trigger] m[k]).0 == id;
                    assert(k > 0);
                    assert(d[k - 1].0 == id);
                }
            }
        }
    }
}

/// After a removal no entry carries the id.
pub proof fn lemma_repo_remove_gone(m: Seq<(DocId, Seq<char>)>, id: DocId)
    ensures
        forall|k: int|
            0 <= k < repo_remove(m, id).len() ==> (#[trigger] repo_remove(m, id)[k]).0 != id,
    decreases m.len(),
{
    if m.len() > 0 {
        lemma_repo_remove_gone(m.drop_last(), id);
        let rem = repo_remove(m, id);
        let remd = repo_remove(m.drop_last(), id);
        assert forall|k: int| 0 <= k < rem.len() implies (#[trigger] rem[k]).0 != id by {
            if m.last().0 != id && k == rem.len() - 1 {
                assert(rem[k] == m.last());
            } else {
                assert(rem[k] == remd[k]);
            }
        }
    }
}

/// A removal keeps exactly the entries of the other ids.
pub proof fn lemma_repo_remove_keeps(m: Seq<(DocId, Seq<char>)>, id: DocId, other: DocId)
    requires
        other != id,
    ensures
        (exists|k: int| 0 <= k < repo_remove(m, id).len() && (#[trigger] repo_remove(m, id)[k]).0
            == other) <==> (exists|k: int| 0 <= k < m.len() && (#[trigger] m[k]).0 == other),
    decreases m.len(),
{
    if m.len() > 0 {
        let d = m.drop_last();
        let rem = repo_remove(m, id);
        let remd = repo_remove(d, id);
        lemma_repo_remove_keeps(d, id, other);
        if (exists|k: int| 0 <= k < m.len() && (#[trigger] m[k]).0 == other) && m.last().0
            != other {
            let k = choose|k: int| 0 <= k < m.len() && (#[trigger] m[k]).0 == other;
            assert(d[k].0 == other);
        }
        if exists|k: int| 0 <= k < d.len() && (#[trigger] d[k]).0 == other {
            let k = choose|k: int| 0 <= k < d.len() && (#[trigger] d[k]).0 == other;
            assert(m[k].0 == other);
        }
        if m.last().0 != id {
            assert(rem == remd.push(m.last()));
            if exists|k: int| 0 <= k < rem.len() && (#[trigger] rem[k]).0 == other {
                let k = choose|k: int| 0 <= k < rem.len() && (#[trigger] rem[k]).0 == other;
                if k < remd.len() {
                    assert(remd[k].0 == other);
                } else {
                    assert(m.last().0 == other);
                    assert(m[m.len() - 1].0 == other);
                }
            }
            if exists|k: int| 0 <= k < remd.len() && (#[trigger] remd[k]).0 == other {
                let k = choose|k: int| 0 <= k < remd.len() && (#[trigger] remd[k]).0 == other;
                assert(rem[k].0 == other);
            }
            if m.last().0 == other {
                assert(rem[rem.len() - 1].0 == other);
            }
        }
    }
}

/// The canonical path of a stored document: `<dir>/<id>.pdf`.
pub open spec fn spec_doc_path(dir: Seq<char>, id: DocId) -> Seq<char> {
    dir + "/"@ + spec_u64_string(id as int) + ".pdf"@
}

/// A repository of document files under one directory.
pub struct LocalFileRepository {
    document_dir: String,
    documents: Vec<(DocId, String)>,
}

impl LocalFileRepository {
    /// The mathematical view: the id-to-path registry, in registration
    /// order.
    pub closed spec fn view(&self) -> Seq<(DocId, Seq<char>)> {
        Seq::new(self.documents@.len(), |i: int| (self.documents@[i].0, self.documents@[i].1@))
    }

    pub open spec fn wf(&self) -> bool {
        repo_wf(self@)
    }

    /// Builds the repository from the document directory's listing:
    /// each entry whose stem parses as an id is registered under
    /// `<dir>/<entry>`, an entry named after the directory itself is
    /// passed over, and any other entry fails the load.
    pub fn new(document_dir: &str, entries: &Vec<String>) -> (r: Result<
        LocalFileRepository,
        LocalFileRepositoryError,
    >)
        ensures
            entries_ok(entries.deep_view()) ==> (r matches Ok(repo) && repo@ == spec_load(
                document_dir@,
                entries.deep_view(),
            ) && repo.wf()),
            !entries_ok(entries.deep_view()) ==> (r matches Err(e) && e is ParseIdError),
    {
        let ghost evs = entries.deep_view();
        let mut documents: Vec<(DocId, String)> = Vec::new();
        let mut i: usize = 0;
        assert(Self::vec_view(documents) =~= spec_load(document_dir@, evs.subrange(0, 0)));
        while i < entries.len()
            invariant
                0 <= i <= evs.len(),
                evs == entries.deep_view(),
                evs.len() == entries@.len(),
                Self::vec_view(documents) == spec_load(document_dir@, evs.subrange(0, i as int)),
                repo_wf(Self::vec_view(documents)),
                entries_ok(evs.subrange(0, i as int)),
            decreases evs.len() - i,
        {
            let ghost pre = evs.subrange(0, i as int);
            let ghost pre1 = evs.subrange(0, i + 1 as int);
            proof {
                assert(pre1.drop_last() =~= pre);
                assert(pre1.last() == evs[i as int]);
            }
            let entry = &entries[i];
            let stem = crate::text::file_stem(entry.as_str());
            let reserved = String::from_str("documents");
            if stem == reserved {
                assert(spec_file_stem(evs[i as int]) == "documents"@);
            } else {
                match crate::text::parse_u64(stem.as_str()) {
                    Some(id) => {
                        let path = document_dir.to_owned().concat("/").concat(entry.as_str());
                        assert(path@ == document_dir@ + "/"@ + evs[i as int]);
                        Self::upsert_entry(&mut documents, id, path);
                    },
                    None => {
                        assert(!entries_ok(evs)) by {
                            assert(spec_file_stem(evs[i as int]) != "documents"@);
                            assert(spec_parse_u64(spec_file_stem(evs[i as int])) is None);
                        }
                        return Err(LocalFileRepositoryError::ParseIdError(stem));
                    },
                }
            }
            i = i + 1;
        }
        assert(evs.subrange(0, evs.len() as int) =~= evs);
        Ok(LocalFileRepository { document_dir: document_dir.to_owned(), documents })
    }

    /// The view of a raw entry vector.
    pub closed spec fn vec_view(v: Vec<(DocId, String)>) -> Seq<(DocId, Seq<char>)> {
        Seq::new(v@.len(), |i: int| (v@[i].0, v@[i].1@))
    }

    /// Removes every entry of `id` from `v` and appends `(id, path)`.
    fn upsert_entry(v: &mut Vec<(DocId, String)>, id: DocId, path: String)
        ensures
            Self::vec_view(*final(v)) == repo_upsert(Self::vec_view(*old(v)), id, path@),
            repo_wf(Self::vec_view(*old(v))) ==> repo_wf(Self::vec_view(*final(v))),
    {
        let ghost m = Self::vec_view(*old(v));
        let mut out: Vec<(DocId, String)> = Vec::new();
        let mut i: usize = 0;
        assert(Self::vec_view(out) =~= repo_remove(m.subrange(0, 0), id));
        while i < v.len()
            invariant
                0 <= i <= m.len(),
                m == Self::vec_view(*v),
                m.len() == v@.len(),
                Self::vec_view(out) == repo_remove(m.subrange(0, i as int), id),
                forall|k: int|
                    0 <= k < Self::vec_view(out).len() ==> (#[trigger] Self::vec_view(out)[k]).0
                        != id,
                repo_wf(m) ==> repo_wf(Self::vec_view(out)),
                forall|k: int, l: int|
                    0 <= k < Self::vec_view(out).len() && 0 <= l < m.len() && (#[trigger] m[l]).0
                        != id ==> ((#[trigger] Self::vec_view(out)[k]).0 == m[l].0 ==> exists|
                        j: int,
                    |
                        0 <= j < i && m[j] == Self::vec_view(out)[k]),
            decreases m.len() - i,
        {
            let ghost pre = m.subrange(0, i as int);
            let ghost pre1 = m.subrange(0, i + 1 as int);
            proof {
                assert(pre1.drop_last() =~= pre);
                assert(pre1.last() == m[i as int]);
            }
            if v[i].0 != id {
                let p = (v[i].0, v[i].1.clone());
                let ghost prev = Self::vec_view(out);
                out.push(p);
                proof {
                    assert(Self::vec_view(out) =~= prev.push((m[i as int].0, m[i as int].1)));
                }
            }
            i = i + 1;
        }
        assert(m.subrange(0, m.len() as int) =~= m);
        let ghost removed = Self::vec_view(out);
        out.push((id, path));
        proof {
            assert(Self::vec_view(out) =~= removed.push((id, path@)));
        }
        *v = out;
    }

    /// The destination path a new document file gets: `<dir>/<id>.pdf`,
    /// which the caller copies the source file into. Registers the id
    /// under that path.
    pub fn add_document(&mut self, id: DocId, _file: &str) -> (dest: String)
        ensures
            dest@ == spec_doc_path(old(self).document_dir_view(), id),
            final(self)@ == repo_upsert(old(self)@, id, dest@),
            final(self).document_dir_view() == old(self).document_dir_view(),
            old(self).wf() ==> final(self).wf(),
    {
        let id_str = crate::text::u64_to_string(id);
        let dest = self.document_dir.clone().concat("/").concat(id_str.as_str()).concat(".pdf");
        assert(dest@ == spec_doc_path(self.document_dir@, id));
        Self::upsert_entry(&mut self.documents, id, dest.clone());
        dest
    }

    /// The directory the repository stores files under.
    pub closed spec fn document_dir_view(&self) -> Seq<char> {
        self.document_dir@
    }

    /// Drops the registration of `id`. Returns the path whose file the
    /// caller must delete, or `None` when the id was not registered,
    /// which is a no-op.
    pub fn remove_document(&mut self, id: DocId) -> (r: Option<String>)
        ensures
            final(self)@ == repo_remove(old(self)@, id),
            final(self).document_dir_view() == old(self).document_dir_view(),
            old(self).wf() ==> final(self).wf(),
            (r is Some) <==> repo_contains(old(self)@, id),
            r matches Some(p) ==> repo_get(old(self)@, id) == Some(p@),
    {
        let ghost m = self@;
        let mut out: Vec<(DocId, String)> = Vec::new();
        let mut found: Option<String> = None;
        let mut i: usize = 0;
        assert(Self::vec_view(out) =~= repo_remove(m.subrange(0, 0), id));
        assert(m.subrange(0, m.len() as int) =~= m);
        while i < self.documents.len()
            invariant
                0 <= i <= m.len(),
                m == self@,
                m.len() == self.documents@.len(),
                Self::vec_view(out) == repo_remove(m.subrange(0, i as int), id),
                forall|k: int|
                    0 <= k < Self::vec_view(out).len() ==> (#[trigger] Self::vec_view(out)[k]).0
                        != id,
                repo_wf(m) ==> repo_wf(Self::vec_view(out)),
                found matches Some(p) ==> repo_get(m, id) == Some(p@),
                found is None ==> repo_get(m, id) == repo_get(
                    m.subrange(i as int, m.len() as int),
                    id,
                ),
                forall|k: int, l: int|
                    0 <= k < Self::vec_view(out).len() && 0 <= l < m.len() && (#[trigger] m[l]).0
                        != id ==> ((#[trigger] Self::vec_view(out)[k]).0 == m[l].0 ==> exists|
                        j: int,
                    |
                        0 <= j < i && m[j] == Self::vec_view(out)[k]),
            decreases m.len() - i,
        {
            let ghost pre = m.subrange(0, i as int);
            let ghost pre1 = m.subrange(0, i + 1 as int);
            let ghost rest = m.subrange(i as int, m.len() as int);
            let ghost rest1 = m.subrange(i + 1 as int, m.len() as int);
            proof {
                assert(pre1.drop_last() =~= pre);
                assert(pre1.last() == m[i as int]);
                assert(rest.first() == m[i as int]);
                assert(rest.drop_first() =~= rest1);
            }
            if self.documents[i].0 != id {
                let p = (self.documents[i].0, self.documents[i].1.clone());
                let ghost prev = Self::vec_view(out);
                out.push(p);
                proof {
                    assert(Self::vec_view(out) =~= prev.push((m[i as int].0, m[i as int].1)));
                }
            } else {
                if found.is_none() {
                    found = Some(self.documents[i].1.clone());
                }
            }
            i = i + 1;
        }
        assert(m.subrange(0, m.len() as int) =~= m);
        assert(m.subrange(m.len() as int, m.len() as int) =~= Seq::<(DocId, Seq<char>)>::empty());
        self.documents = out;
        found
    }

    /// The stored path of a document. Fails with `DocumentNotFoundError`
    /// exactly when the id is not registered.
    pub fn get_document(&self, id: DocId) -> (r: Result<String, LocalFileRepositoryError>)
        ensures
            r matches Ok(p) ==> repo_get(self@, id) == Some(p@),
            r matches Err(e) ==> (e matches LocalFileRepositoryError::DocumentNotFoundError(i)
                && i == id && !repo_contains(self@, id)),
    {
        let ghost m = self@;
        let mut i: usize = 0;
        assert(m.subrange(0, m.len() as int) =~= m);
        while i < self.documents.len()
            invariant
                0 <= i <= m.len(),
                m == self@,
                m.len() == self.documents@.len(),
                repo_get(m, id) == repo_get(m.subrange(i as int, m.len() as int), id),
            decreases m.len() - i,
        {
            let ghost rest = m.subrange(i as int, m.len() as int);
            let ghost rest1 = m.subrange(i + 1 as int, m.len() as int);
            proof {
                assert(rest.first() == m[i as int]);
                assert(rest.drop_first() =~= rest1);
            }
            if self.documents[i].0 == id {
                return Ok(self.documents[i].1.clone());
            }
            i = i + 1;
        }
        assert(m.subrange(m.len() as int, m.len() as int) =~= Seq::<(DocId, Seq<char>)>::empty());
        Err(LocalFileRepositoryError::DocumentNotFoundError(id))
    }
}

} // verus!
