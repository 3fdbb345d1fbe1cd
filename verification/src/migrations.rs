//! Forward-only schema migrations of the metadata file. A legacy file
//! is a bare list of records with a top-level inferred date; the
//! current shape is a versioned record list. Migrating an old file
//! also calls for the on-disk search index to be wiped and rebuilt;
//! the caller performs the wipe, asking [`should_delete_index_file`]
//! about each directory entry.

use vstd::prelude::*;
use crate::TagId;
use crate::document::{DocumentData, DocView, ExtractedData, ExtractedView, view_opt_string};
use crate::metadata_store::docs_view;
use crate::text::{spec_extension, spec_file_name, spec_lower};

verus! {

/// An error of the migration chain.
#[derive(Debug, Clone)]
pub enum MigrationError {
    /// The metadata file's schema version is newer than this build
    /// understands.
    Version(usize),
}

/// A record as the legacy, unversioned metadata file holds it: the
/// inferred date at top level and no extracted sequences.
#[derive(Debug, Clone)]
pub struct DocumentDataV0 {
    pub id: crate::DocId,
    pub original_filename: String,
    pub title: String,
    pub body: Option<String>,
    pub tags: Vec<TagId>,
    pub imported_date: i64,
    pub inferred_date: Option<i64>,
    pub language: Option<String>,
    pub hash: String,
    pub file_size: u64,
}

/// The mathematical view of a legacy record.
#[verifier::ext_equal]
pub ghost struct DocV0View {
    pub id: crate::DocId,
    pub original_filename: Seq<char>,
    pub title: Seq<char>,
    pub body: Option<Seq<char>>,
    pub tags: Seq<TagId>,
    pub imported_date: i64,
    pub inferred_date: Option<i64>,
    pub language: Option<Seq<char>>,
    pub hash: Seq<char>,
    pub file_size: u64,
}

impl View for DocumentDataV0 {
    type V = DocV0View;

    open spec fn view(&self) -> DocV0View {
        DocV0View {
            id: self.id,
            original_filename: self.original_filename@,
            title: self.title@,
            body: view_opt_string(self.body),
            tags: self.tags@,
            imported_date: self.imported_date,
            inferred_date: self.inferred_date,
            language: view_opt_string(self.language),
            hash: self.hash@,
            file_size: self.file_size,
        }
    }
}

/// The versioned metadata file: a schema version and the records.
#[derive(Debug, Clone)]
pub struct Documents {
    pub version: usize,
    pub docs: Vec<DocumentData>,
}

/// What a legacy record becomes: the inferred date moves into the
/// extracted metadata, whose sequences start empty.
pub open spec fn spec_migrate_v0(d: DocV0View) -> DocView {
    DocView {
        id: d.id,
        original_filename: d.original_filename,
        title: d.title,
        body: d.body,
        tags: d.tags,
        imported_date: d.imported_date,
        hash: d.hash,
        file_size: d.file_size,
        language: d.language,
        extracted: ExtractedView {
            phone: Seq::empty(),
            email: Seq::empty(),
            link: Seq::empty(),
            iban: Seq::empty(),
            doc_date: d.inferred_date,
        },
    }
}

/// The views of a legacy record vector, in order.
pub open spec fn v0_view(v: Vec<DocumentDataV0>) -> Seq<DocV0View> {
    Seq::new(v@.len(), |i: int| v@[i]@)
}

/// The metadata file as loaded, before migration.
pub enum RepoFile {
    /// The unversioned legacy shape: a bare record list.
    Legacy(Vec<DocumentDataV0>),
    /// The versioned shape.
    Current(Documents),
}

/// The mathematical view of a loaded metadata file.
pub ghost enum RepoView {
    Legacy(Seq<DocV0View>),
    Current(int, Seq<DocView>),
}

impl View for RepoFile {
    type V = RepoView;

    open spec fn view(&self) -> RepoView {
        match self {
            RepoFile::Legacy(v0) => RepoView::Legacy(v0_view(*v0)),
            RepoFile::Current(d) => RepoView::Current(d.version as int, docs_view(d.docs)),
        }
    }
}

/// What the migration produced.
pub struct MigrationResult {
    /// The migrated file, at the current schema version.
    pub docs: Documents,
    /// Whether the file changed and must be rewritten.
    pub changed: bool,
    /// Whether the on-disk search index must be wiped.
    pub wipe_index: bool,
    /// Whether a full reindex is required on first use.
    pub reindex: bool,
}

/// The mathematical view of a migration outcome.
#[verifier::ext_equal]
pub ghost struct MigrationView {
    pub version: int,
    pub docs: Seq<DocView>,
    pub changed: bool,
    pub wipe_index: bool,
    pub reindex: bool,
}

/// The migration chain, as a function of the loaded file: a legacy
/// file is wrapped and its inferred dates moved, any version below the
/// current one has its search index wiped and rebuilt, the current
/// version is left alone, and a newer version is refused.
pub open spec fn spec_migrate(r: RepoView) -> Result<MigrationView, int> {
    match r {
        RepoView::Legacy(v0s) => Ok(
            MigrationView {
                version: 2,
                docs: v0s.map_values(|d: DocV0View| spec_migrate_v0(d)),
                changed: true,
                wipe_index: true,
                reindex: true,
            },
        ),
        RepoView::Current(v, docs) => {
            if v > 2 {
                Err(v)
            } else if v == 2 {
                Ok(
                    MigrationView {
                        version: 2,
                        docs,
                        changed: false,
                        wipe_index: false,
                        reindex: false,
                    },
                )
            } else {
                Ok(
                    MigrationView {
                        version: 2,
                        docs,
                        changed: true,
                        wipe_index: true,
                        reindex: true,
                    },
                )
            }
        },
    }
}

/// A second migration of an already-migrated file is a no-op.
pub proof fn lemma_migrate_idempotent(r: RepoView)
    requires
        spec_migrate(r) is Ok,
    ensures
        ({
            let m = spec_migrate(r)->Ok_0;
            spec_migrate(RepoView::Current(m.version, m.docs)) == Ok::<MigrationView, int>(
                MigrationView {
                    version: m.version,
                    docs: m.docs,
                    changed: false,
                    wipe_index: false,
                    reindex: false,
                },
            )
        }),
{
}

/// Converts a legacy record.
pub fn migrate_v0(d: &DocumentDataV0) -> (r: DocumentData)
    ensures
        r@ == spec_migrate_v0(d@),
{
    let r = DocumentData {
        id: d.id,
        original_filename: d.original_filename.clone(),
        title: d.title.clone(),
        body: crate::document::clone_string_opt(&d.body),
        tags: crate::document::clone_u64_vec(&d.tags),
        imported_date: d.imported_date,
        hash: d.hash.clone(),
        file_size: d.file_size,
        language: crate::document::clone_string_opt(&d.language),
        extracted: ExtractedData {
            phone: Vec::new(),
            email: Vec::new(),
            link: Vec::new(),
            iban: Vec::new(),
            doc_date: match d.inferred_date {
                Some(x) => Some(x),
                None => None,
            },
        },
    };
    assert(r@ =~= spec_migrate_v0(d@));
    r
}

/// Runs the migration chain on a loaded metadata file, exactly as
/// [`spec_migrate`] describes; fails with `Version` exactly when the
/// file's schema is newer than the current one.
pub fn migrate(repo: RepoFile) -> (r: Result<MigrationResult, MigrationError>)
    ensures
        spec_migrate(repo@) matches Ok(m) ==> (r matches Ok(out) && out.docs.version == m.version
            && docs_view(out.docs.docs) == m.docs && out.changed == m.changed && out.wipe_index
            == m.wipe_index && out.reindex == m.reindex),
        spec_migrate(repo@) matches Err(v) ==> (r matches Err(e)
            && (e matches MigrationError::Version(v2) && v2 as int == v)),
{
    match repo {
        RepoFile::Legacy(v0s) => {
            let ghost vvs = v0_view(v0s);
            let mut docs: Vec<DocumentData> = Vec::new();
            let mut i: usize = 0;
            assert(docs_view(docs) =~= vvs.subrange(0, 0).map_values(
                |d: DocV0View| spec_migrate_v0(d),
            ));
            while i < v0s.len()
                invariant
                    0 <= i <= vvs.len(),
                    vvs == v0_view(v0s),
                    vvs.len() == v0s@.len(),
                    docs_view(docs) == vvs.subrange(0, i as int).map_values(
                        |d: DocV0View| spec_migrate_v0(d),
                    ),
                decreases vvs.len() - i,
            {
                let ghost prev = docs_view(docs);
                docs.push(migrate_v0(&v0s[i]));
                proof {
                    assert(docs_view(docs) =~= prev.push(spec_migrate_v0(vvs[i as int])));
                    assert(prev.push(spec_migrate_v0(vvs[i as int])) =~= vvs.subrange(
                        0,
                        i + 1 as int,
                    ).map_values(|d: DocV0View| spec_migrate_v0(d)));
                }
                i = i + 1;
            }
            assert(vvs.subrange(0, vvs.len() as int) =~= vvs);
            Ok(
                MigrationResult {
                    docs: Documents { version: 2, docs },
                    changed: true,
                    wipe_index: true,
                    reindex: true,
                },
            )
        },
        RepoFile::Current(d) => {
            if d.version > 2 {
                Err(MigrationError::Version(d.version))
            } else if d.version == 2 {
                Ok(
                    MigrationResult {
                        docs: d,
                        changed: false,
                        wipe_index: false,
                        reindex: false,
                    },
                )
            } else {
                let docs = d.docs;
                Ok(
                    MigrationResult {
                        docs: Documents { version: 2, docs },
                        changed: true,
                        wipe_index: true,
                        reindex: true,
                    },
                )
            }
        },
    }
}

/// Whether a directory entry of the index directory belongs to the old
/// search index and must be deleted during the wipe: its extension is
/// one of the engine's, compared without regard to ASCII case, or it
/// is the engine's metadata file.
pub open spec fn spec_wipe_target(name: Seq<char>) -> bool {
    ||| (match spec_extension(name) {
        Some(e) => {
            let l = spec_lower(e);
            ||| l == "fast"@
            ||| l == "fieldnorm"@
            ||| l == "idx"@
            ||| l == "lock"@
            ||| l == "pos"@
            ||| l == "posidx"@
            ||| l == "store"@
            ||| l == "term"@
        },
        None => false,
    })
    ||| spec_file_name(name) == "meta.json"@
}

/// Decides [`spec_wipe_target`] for one directory entry.
pub fn should_delete_index_file(name: &str) -> (r: bool)
    ensures
        r == spec_wipe_target(name@),
{
    let by_ext = match crate::text::extension(name) {
        Some(e) => {
            let l = crate::text::to_ascii_lowercase(e.as_str());
            let r1 = l == String::from_str("fast") || l == String::from_str("fieldnorm") || l
                == String::from_str("idx") || l == String::from_str("lock") || l
                == String::from_str("pos") || l == String::from_str("posidx") || l
                == String::from_str("store") || l == String::from_str("term");
            r1
        },
        None => false,
    };
    let fname = crate::text::file_name(name);
    by_ext || fname == String::from_str("meta.json")
}

} // verus!
