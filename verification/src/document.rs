//! The persisted document record and the query options over it.
//!
//! Dates are UTC instants carried as seconds since the Unix epoch, so that
//! contracts can compare and order them directly. Every record has a
//! mathematical view, [`DocView`], over which the library's contracts
//! speak.

use vstd::prelude::*;
use crate::{DocId, TagId};

verus! {

/// Metadata inferred from a document's body.
#[derive(Debug, Clone)]
pub struct ExtractedData {
    pub phone: Vec<String>,
    pub email: Vec<String>,
    pub link: Vec<String>,
    pub iban: Vec<String>,
    /// The date the document itself carries, if one was inferred.
    pub doc_date: Option<i64>,
}

/// The mathematical view of an [`ExtractedData`].
#[verifier::ext_equal]
pub ghost struct ExtractedView {
    pub phone: Seq<Seq<char>>,
    pub email: Seq<Seq<char>>,
    pub link: Seq<Seq<char>>,
    pub iban: Seq<Seq<char>>,
    pub doc_date: Option<i64>,
}

impl View for ExtractedData {
    type V = ExtractedView;

    open spec fn view(&self) -> ExtractedView {
        ExtractedView {
            phone: self.phone.deep_view(),
            email: self.email.deep_view(),
            link: self.link.deep_view(),
            iban: self.iban.deep_view(),
            doc_date: self.doc_date,
        }
    }
}

/// The persisted document record.
#[derive(Debug, Clone)]
pub struct DocumentData {
    pub id: DocId,
    pub original_filename: String,
    pub title: String,
    /// Transient: fed to the search index, not persisted in the metadata file.
    pub body: Option<String>,
    pub tags: Vec<TagId>,
    /// UTC seconds; set once at ingest.
    pub imported_date: i64,
    /// Hex SHA-256 of the original bytes; unique within the repository.
    pub hash: String,
    pub file_size: u64,
    /// ISO 639 language code, if one was inferred.
    pub language: Option<String>,
    pub extracted: ExtractedData,
}

/// The mathematical view of a [`DocumentData`].
#[verifier::ext_equal]
pub ghost struct DocView {
    pub id: DocId,
    pub original_filename: Seq<char>,
    pub title: Seq<char>,
    pub body: Option<Seq<char>>,
    pub tags: Seq<TagId>,
    pub imported_date: i64,
    pub hash: Seq<char>,
    pub file_size: u64,
    pub language: Option<Seq<char>>,
    pub extracted: ExtractedView,
}

pub open spec fn view_opt_string(s: Option<String>) -> Option<Seq<char>> {
    match s {
        Some(x) => Some(x@),
        None => None,
    }
}

impl View for DocumentData {
    type V = DocView;

    open spec fn view(&self) -> DocView {
        DocView {
            id: self.id,
            original_filename: self.original_filename@,
            title: self.title@,
            body: view_opt_string(self.body),
            tags: self.tags@,
            imported_date: self.imported_date,
            hash: self.hash@,
            file_size: self.file_size,
            language: view_opt_string(self.language),
            extracted: self.extracted@,
        }
    }
}

/// The record as the metadata store persists it: everything but the body.
pub open spec fn spec_persisted(d: DocView) -> DocView {
    DocView { body: None, ..d }
}

impl ExtractedData {
    /// An empty extraction: no sequences, no inferred date.
    pub fn new() -> (r: ExtractedData)
        ensures
            r@.phone.len() == 0,
            r@.email.len() == 0,
            r@.link.len() == 0,
            r@.iban.len() == 0,
            r@.doc_date is None,
    {
        ExtractedData {
            phone: Vec::new(),
            email: Vec::new(),
            link: Vec::new(),
            iban: Vec::new(),
            doc_date: None,
        }
    }

    /// A copy of this extraction.
    pub fn duplicate(&self) -> (r: ExtractedData)
        ensures
            r@ == self@,
    {
        let r = ExtractedData {
            phone: clone_string_vec(&self.phone),
            email: clone_string_vec(&self.email),
            link: clone_string_vec(&self.link),
            iban: clone_string_vec(&self.iban),
            doc_date: match self.doc_date {
                Some(d) => Some(d),
                None => None,
            },
        };
        assert(r@ =~= self@);
        r
    }
}

impl DocumentData {
    /// A copy of this record.
    pub fn duplicate(&self) -> (r: DocumentData)
        ensures
            r@ == self@,
    {
        let r = DocumentData {
            id: self.id,
            original_filename: self.original_filename.clone(),
            title: self.title.clone(),
            body: clone_string_opt(&self.body),
            tags: clone_u64_vec(&self.tags),
            imported_date: self.imported_date,
            hash: self.hash.clone(),
            file_size: self.file_size,
            language: clone_string_opt(&self.language),
            extracted: self.extracted.duplicate(),
        };
        assert(r@ =~= self@);
        r
    }

    /// The persisted form of this record: the body dropped.
    pub fn persisted(&self) -> (r: DocumentData)
        ensures
            r@ == spec_persisted(self@),
    {
        let mut r = self.duplicate();
        r.body = None;
        assert(r@ =~= spec_persisted(self@));
        r
    }
}

/// Copies a vector of strings.
pub fn clone_string_vec(v: &Vec<String>) -> (r: Vec<String>)
    ensures
        r.deep_view() == v.deep_view(),
{
    let mut r: Vec<String> = Vec::new();
    let mut i: usize = 0;
    while i < v.len()
        invariant
            0 <= i <= v@.len(),
            r.deep_view() =~= v.deep_view().subrange(0, i as int),
        decreases v@.len() - i,
    {
        let ghost prev = r.deep_view();
        r.push(v[i].clone());
        proof {
            assert(r.deep_view() =~= prev.push(v.deep_view()[i as int]));
            assert(prev.push(v.deep_view()[i as int]) =~= v.deep_view().subrange(0, i + 1 as int));
        }
        i = i + 1;
    }
    assert(v.deep_view().subrange(0, v.deep_view().len() as int) =~= v.deep_view());
    r
}

/// Copies a vector of ids.
pub fn clone_u64_vec(v: &Vec<u64>) -> (r: Vec<u64>)
    ensures
        r@ == v@,
{
    let mut r: Vec<u64> = Vec::new();
    let mut i: usize = 0;
    while i < v.len()
        invariant
            0 <= i <= v@.len(),
            r@ =~= v@.subrange(0, i as int),
        decreases v@.len() - i,
    {
        r.push(v[i]);
        assert(r@ =~= v@.subrange(0, i + 1 as int));
        i = i + 1;
    }
    assert(v@.subrange(0, v@.len() as int) =~= v@);
    r
}

/// Copies an optional string.
pub fn clone_string_opt(v: &Option<String>) -> (r: Option<String>)
    ensures
        view_opt_string(r) == view_opt_string(*v),
        r is Some <==> *v is Some,
{
    match v {
        Some(s) => Some(s.clone()),
        None => None,
    }
}

/// How a filtered query orders its results.
#[derive(Debug, Clone, Copy, PartialEq, Eq, Structural)]
pub enum SortOrder {
    ImportedDate,
    InferredDate,
    NoOrder,
}

/// The options of a filtered document query.
#[derive(Debug, Clone)]
pub struct FilterOptions {
    pub sort: SortOrder,
    /// Keep only documents carrying all of these tags.
    pub tags: Vec<TagId>,
    /// Free-text query; empty or absent means no text filter.
    pub query: Option<String>,
}

/// An error from the document repository.
#[derive(Debug, Clone)]
pub enum DocumentRepositoryError {
    /// No document with this id is stored.
    NotFound(DocId),
    /// The metadata file holds two records sharing an id or a hash.
    Duplicate(DocId),
}

/// A partial update of a document's metadata: absent fields are left
/// unchanged.
#[derive(Debug, Clone)]
pub struct PatchDocumentData {
    pub title: Option<String>,
    pub tags: Option<Vec<TagId>>,
    pub language: Option<String>,
    pub extracted: Option<PatchExtractedData>,
}

/// A partial update of the extracted metadata.
#[derive(Debug, Clone)]
pub struct PatchExtractedData {
    pub phone: Option<Vec<String>>,
    pub email: Option<Vec<String>>,
    pub link: Option<Vec<String>>,
    pub iban: Option<Vec<String>>,
    pub doc_date: Option<i64>,
}

impl DocumentData {
    /// Applies a partial update: each present field replaces the stored
    /// one; absent fields, the id, dates, hash, size and body are left
    /// unchanged.
    pub fn patch(&mut self, patch: PatchDocumentData)
        ensures
            final(self)@.id == old(self)@.id,
            final(self)@.original_filename == old(self)@.original_filename,
            final(self)@.body == old(self)@.body,
            final(self)@.imported_date == old(self)@.imported_date,
            final(self)@.hash == old(self)@.hash,
            final(self)@.file_size == old(self)@.file_size,
            final(self)@.title == (if patch.title is Some {
                patch.title.unwrap()@
            } else {
                old(self)@.title
            }),
            final(self)@.language == (if patch.language is Some {
                Some(patch.language.unwrap()@)
            } else {
                old(self)@.language
            }),
            final(self)@.tags == (if patch.tags is Some {
                patch.tags.unwrap()@
            } else {
                old(self)@.tags
            }),
            patch.extracted is None ==> final(self)@.extracted == old(self)@.extracted,
            patch.extracted matches Some(e) ==> {
                &&& final(self)@.extracted.phone == (if e.phone is Some {
                    e.phone.unwrap().deep_view()
                } else {
                    old(self)@.extracted.phone
                })
                &&& final(self)@.extracted.email == (if e.email is Some {
                    e.email.unwrap().deep_view()
                } else {
                    old(self)@.extracted.email
                })
                &&& final(self)@.extracted.link == (if e.link is Some {
                    e.link.unwrap().deep_view()
                } else {
                    old(self)@.extracted.link
                })
                &&& final(self)@.extracted.iban == (if e.iban is Some {
                    e.iban.unwrap().deep_view()
                } else {
                    old(self)@.extracted.iban
                })
                &&& final(self)@.extracted.doc_date == (if e.doc_date is Some {
                    e.doc_date
                } else {
                    old(self)@.extracted.doc_date
                })
            },
    {
        if let Some(title) = patch.title {
            self.title = title;
        }
        if let Some(language) = patch.language {
            self.language = Some(language);
        }
        if let Some(tags) = patch.tags {
            self.tags = tags;
        }
        if let Some(extracted) = patch.extracted {
            if let Some(phone) = extracted.phone {
                self.extracted.phone = phone;
            }
            if let Some(email) = extracted.email {
                self.extracted.email = email;
            }
            if let Some(link) = extracted.link {
                self.extracted.link = link;
            }
            if let Some(iban) = extracted.iban {
                self.extracted.iban = iban;
            }
            if let Some(doc_date) = extracted.doc_date {
                self.extracted.doc_date = Some(doc_date);
            }
        }
    }
}

} // verus!
