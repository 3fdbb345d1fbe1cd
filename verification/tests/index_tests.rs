use shreddr::document::{FilterOptions, SortOrder};
use shreddr::file_repository::LocalFileRepository;
use shreddr::id_allocator::IdAllocator;
use shreddr::index::{Index, IndexError};
use shreddr::metadata_store::MetadataStore;
use shreddr::tagger::{MatcherConfig, TagConfig, Tagger, TagsConfig};

fn empty_index() -> Index {
    let file_repo = LocalFileRepository::new("/data/documents", &vec![]).unwrap();
    let doc_repo = MetadataStore::new();
    let tagger = Tagger::new(TagsConfig::default()).unwrap();
    let id_alloc = IdAllocator::from_content(None).unwrap();
    Index::new("/data", &vec!["eng".to_string()], file_repo, doc_repo, tagger, id_alloc).unwrap()
}

#[test]
fn import_then_query() {
    // a document whose text mentions the company shows up in a filtered
    // read for it
    let mut ix = empty_index();
    let bytes = b"%PDF-1.4 fake".to_vec();
    let id = ix
        .import_document(
            "/consume/inv.pdf",
            true,
            &bytes,
            Some("Acme Corporation Invoice".to_string()),
            1000,
        )
        .unwrap();
    let filter = FilterOptions {
        sort: SortOrder::NoOrder,
        tags: vec![],
        query: Some("Acme".to_string()),
    };
    let scores: Vec<(u64, u64)> = vec![(id, 4200)];
    let r = ix.get_sorted_documents(0, 10, &filter, &scores);
    assert_eq!(r.len(), 1);
    assert_eq!(r[0].id, id);
}

#[test]
fn import_dedups_by_hash() {
    // importing the same bytes twice returns the first id and keeps one
    // record
    let mut ix = empty_index();
    let bytes = b"identical content".to_vec();
    let id1 = ix
        .import_document("/consume/a.pdf", true, &bytes, Some("text".to_string()), 10)
        .unwrap();
    let id2 = ix
        .import_document("/consume/a.pdf", true, &bytes, Some("text".to_string()), 20)
        .unwrap();
    assert_eq!(id1, id2);
    assert_eq!(ix.len(), 1);
    assert_eq!(ix.get_documents(0, 10).len(), 1);
}

#[test]
fn import_ids_strictly_increase() {
    let mut ix = empty_index();
    let mut last = 0u64;
    for i in 0..4u8 {
        let bytes = vec![i; 8];
        let id = ix
            .import_document(
                &format!("/consume/{}.pdf", i),
                true,
                &bytes,
                Some(format!("text {}", i)),
                i as i64,
            )
            .unwrap();
        assert!(id > last);
        last = id;
    }
}

#[test]
fn import_fills_metadata() {
    let mut ix = empty_index();
    let bytes = b"some pdf bytes".to_vec();
    let id = ix
        .import_document("/in/My Scan.pdf", true, &bytes, Some("hello world body".to_string()), 777)
        .unwrap();
    let d = ix.get_document(id).unwrap();
    assert_eq!(d.id, id);
    assert_eq!(d.original_filename, "My Scan.pdf");
    assert_eq!(d.title, "My Scan.pdf");
    assert_eq!(d.imported_date, 777);
    assert_eq!(d.file_size, bytes.len() as u64);
    assert_eq!(d.hash.len(), 64);
    let path = ix.get_document_path(id).unwrap();
    assert_eq!(path, format!("/data/documents/{}.pdf", id));
}

#[test]
fn removal_clears_both_sides() {
    let mut ix = empty_index();
    let bytes = b"bytes to remove".to_vec();
    let id = ix
        .import_document("/in/x.pdf", true, &bytes, Some("searchable".to_string()), 5)
        .unwrap();
    assert_eq!(ix.len(), 1);
    let removed = ix.remove_document(id);
    assert_eq!(removed, Some(format!("/data/documents/{}.pdf", id)));
    assert!(matches!(ix.get_document(id), Err(IndexError::DocRepoError(_))));
    assert!(ix.get_document_path(id).is_err());
    assert_eq!(ix.len(), 0);
    // removing again is a no-op
    assert_eq!(ix.remove_document(id), None);
}

#[test]
fn tag_on_reprocess() {
    // a tag created after import applies once the document is
    // reprocessed with a body that matches
    let mut ix = empty_index();
    let tag_id = ix
        .add_tag(TagConfig {
            id: 0,
            name: "totals".to_string(),
            color: None,
            matcher: MatcherConfig::Full { match_str: "Total".to_string(), case_insensitive: true },
        })
        .unwrap();
    let bytes = b"scanned pdf".to_vec();
    let id = ix
        .import_document("/in/scan.pdf", true, &bytes, Some("".to_string()), 50)
        .unwrap();
    assert_eq!(ix.get_document(id).unwrap().tags, Vec::<u64>::new());
    // after OCR the body carries the matching word
    ix.reprocess_document(id, Some("total: 42 EUR".to_string())).unwrap();
    let d = ix.get_document(id).unwrap();
    assert_eq!(d.tags, vec![tag_id]);
    // reprocessing again still yields the tag exactly once
    ix.reprocess_document_force_ocr(id, Some("total: 42 EUR".to_string())).unwrap();
    assert_eq!(ix.get_document(id).unwrap().tags, vec![tag_id]);
}

#[test]
fn reprocess_unknown_id_fails() {
    let mut ix = empty_index();
    assert!(matches!(
        ix.reprocess_document(12, Some("text".to_string())),
        Err(IndexError::DocRepoError(_))
    ));
}

#[test]
fn reprocess_resets_inferred_date() {
    let mut ix = empty_index();
    let bytes = b"dated document".to_vec();
    let id = ix
        .import_document(
            "/in/d.pdf",
            true,
            &bytes,
            Some("Received on Apr 21 2016 in the mail".to_string()),
            3,
        )
        .unwrap();
    assert_eq!(ix.get_document(id).unwrap().extracted.doc_date, Some(1461196800));
    ix.reprocess_document(id, Some("no dates any more".to_string())).unwrap();
    assert_eq!(ix.get_document(id).unwrap().extracted.doc_date, None);
}

#[test]
fn imported_language_is_detected() {
    // a scanned document whose OCR text is English ends up with its
    // language set
    let mut ix = empty_index();
    let bytes = b"ocr output".to_vec();
    let id = ix
        .import_document(
            "/in/ocr.pdf",
            true,
            &bytes,
            Some(
                "This is a fairly long English sentence that the trigram language \
                 detector should recognize as English without any difficulty."
                    .to_string(),
            ),
            9,
        )
        .unwrap();
    let d = ix.get_document(id).unwrap();
    assert_eq!(d.language, Some("eng".to_string()));
}

#[test]
fn update_metadata_keeps_search() {
    let mut ix = empty_index();
    let bytes = b"to update".to_vec();
    let id = ix
        .import_document("/in/u.pdf", true, &bytes, Some("indexed body".to_string()), 4)
        .unwrap();
    let mut d = ix.get_document(id).unwrap();
    d.title = "renamed".to_string();
    ix.update_doc_metadata(d).unwrap();
    assert_eq!(ix.get_document(id).unwrap().title, "renamed");
    assert_eq!(ix.len(), 1);
}

#[test]
fn inconsistent_parts_rejected() {
    // a record whose id is above the allocator cannot form an index
    let file_repo = LocalFileRepository::new("/data/documents", &vec!["9.pdf".to_string()])
        .unwrap();
    let records = vec![shreddr::document::DocumentData {
        id: 9,
        original_filename: "9.pdf".to_string(),
        title: "t".to_string(),
        body: None,
        tags: vec![],
        imported_date: 0,
        hash: "h".to_string(),
        file_size: 0,
        language: None,
        extracted: shreddr::document::ExtractedData {
            phone: vec![],
            email: vec![],
            link: vec![],
            iban: vec![],
            doc_date: None,
        },
    }];
    let doc_repo = MetadataStore::from_records(&records).unwrap();
    let tagger = Tagger::new(TagsConfig::default()).unwrap();
    let id_alloc = IdAllocator::from_content(Some("3")).unwrap();
    let r = Index::new("/data", &vec!["eng".to_string()], file_repo, doc_repo, tagger, id_alloc);
    assert!(matches!(r, Err(IndexError::InconsistentState)));
}

#[test]
fn file_hash_is_sha256_hex() {
    let h = shreddr::file_extractor::FileExtractor::get_file_hash(&b"abc".to_vec());
    assert_eq!(h, "ba7816bf8f01cfea414140de5dae2223b00361a396177a9cb410ff61f20015ad");
    let empty = shreddr::file_extractor::FileExtractor::get_file_hash(&Vec::new());
    assert_eq!(empty, "e3b0c44298fc1c149afbf4c8996fb92427ae41e4649b934ca495991b7852b855");
}
