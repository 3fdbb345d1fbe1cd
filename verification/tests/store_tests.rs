use shreddr::document::{
    DocumentData, ExtractedData, FilterOptions, PatchDocumentData, PatchExtractedData, SortOrder,
    DocumentRepositoryError,
};
use shreddr::metadata_store::MetadataStore;

fn doc(id: u64, hash: &str, imported: i64, tags: Vec<u64>, body: Option<&str>) -> DocumentData {
    DocumentData {
        id,
        original_filename: format!("{}.pdf", id),
        title: format!("doc {}", id),
        body: body.map(|b| b.to_string()),
        tags,
        imported_date: imported,
        hash: hash.to_string(),
        file_size: 100,
        language: None,
        extracted: ExtractedData {
            phone: vec![],
            email: vec![],
            link: vec![],
            iban: vec![],
            doc_date: None,
        },
    }
}

fn no_filter(sort: SortOrder) -> FilterOptions {
    FilterOptions { sort, tags: vec![], query: None }
}

#[test]
fn add_then_get_round_trip() {
    let mut store = MetadataStore::new();
    let d = doc(1, "h1", 50, vec![2, 3], Some("body text"));
    store.add_document(&d);
    let got = store.get_document(1).unwrap();
    assert_eq!(got.id, 1);
    assert_eq!(got.title, "doc 1");
    assert_eq!(got.original_filename, "1.pdf");
    assert_eq!(got.tags, vec![2, 3]);
    assert_eq!(got.imported_date, 50);
    assert_eq!(got.hash, "h1");
    assert_eq!(got.file_size, 100);
    // the body is transient: it is fed to the search index, not persisted
    assert_eq!(got.body, None);
}

#[test]
fn get_missing_fails_not_found() {
    let store = MetadataStore::new();
    assert!(matches!(store.get_document(9), Err(DocumentRepositoryError::NotFound(9))));
}

#[test]
fn add_is_upsert() {
    let mut store = MetadataStore::new();
    store.add_document(&doc(1, "h1", 50, vec![], Some("a")));
    let mut d2 = doc(1, "h1", 60, vec![7], Some("b"));
    d2.title = "renamed".to_string();
    store.add_document(&d2);
    assert_eq!(store.record_count(), 1);
    assert_eq!(store.len(), 1);
    let got = store.get_document(1).unwrap();
    assert_eq!(got.title, "renamed");
    assert_eq!(got.tags, vec![7]);
}

#[test]
fn removal_clears_everything() {
    let mut store = MetadataStore::new();
    store.add_document(&doc(1, "h1", 50, vec![], Some("a")));
    store.add_document(&doc(2, "h2", 60, vec![], Some("b")));
    assert_eq!(store.len(), 2);
    store.remove_document(1);
    assert!(matches!(store.get_document(1), Err(DocumentRepositoryError::NotFound(1))));
    assert_eq!(store.contains_hash("h1"), None);
    assert_eq!(store.len(), 1);
    assert_eq!(store.contains_hash("h2"), Some(2));
}

#[test]
fn bodyless_records_are_not_indexed() {
    let mut store = MetadataStore::new();
    store.add_document(&doc(1, "h1", 50, vec![], None));
    store.add_document(&doc(2, "h2", 60, vec![], Some("b")));
    assert_eq!(store.record_count(), 2);
    assert_eq!(store.len(), 1);
}

#[test]
fn contains_hash_finds_first() {
    let mut store = MetadataStore::new();
    store.add_document(&doc(4, "aaa", 1, vec![], Some("x")));
    store.add_document(&doc(5, "bbb", 2, vec![], Some("y")));
    assert_eq!(store.contains_hash("aaa"), Some(4));
    assert_eq!(store.contains_hash("bbb"), Some(5));
    assert_eq!(store.contains_hash("ccc"), None);
}

#[test]
fn from_records_rejects_duplicates() {
    let records = vec![doc(1, "h1", 1, vec![], None), doc(1, "h2", 2, vec![], None)];
    assert!(matches!(
        MetadataStore::from_records(&records),
        Err(DocumentRepositoryError::Duplicate(1))
    ));
    let records = vec![doc(1, "same", 1, vec![], None), doc(2, "same", 2, vec![], None)];
    assert!(matches!(
        MetadataStore::from_records(&records),
        Err(DocumentRepositoryError::Duplicate(2))
    ));
    let records = vec![doc(1, "h1", 1, vec![], None), doc(2, "h2", 2, vec![], None)];
    let store = MetadataStore::from_records(&records).unwrap();
    assert_eq!(store.record_count(), 2);
}

#[test]
fn get_documents_window() {
    let mut store = MetadataStore::new();
    for i in 1..=5u64 {
        store.add_document(&doc(i, &format!("h{}", i), i as i64, vec![], Some("x")));
    }
    let all = store.get_documents(0, 10);
    assert_eq!(all.iter().map(|d| d.id).collect::<Vec<_>>(), vec![1, 2, 3, 4, 5]);
    let middle = store.get_documents(1, 2);
    assert_eq!(middle.iter().map(|d| d.id).collect::<Vec<_>>(), vec![2, 3]);
    let past = store.get_documents(99, 2);
    assert!(past.is_empty());
}

#[test]
fn filter_ordering_imported_date_descending() {
    let mut store = MetadataStore::new();
    store.add_document(&doc(1, "h1", 30, vec![], Some("x")));
    store.add_document(&doc(2, "h2", 50, vec![], Some("x")));
    store.add_document(&doc(3, "h3", 40, vec![], Some("x")));
    let r = store.get_filtered_documents(0, 10, &no_filter(SortOrder::ImportedDate), &vec![]);
    let dates: Vec<i64> = r.iter().map(|d| d.imported_date).collect();
    assert_eq!(dates, vec![50, 40, 30]);
    for w in dates.windows(2) {
        assert!(w[0] >= w[1]);
    }
}

#[test]
fn filter_ordering_inferred_date_none_last() {
    let mut store = MetadataStore::new();
    let mut a = doc(1, "h1", 1, vec![], Some("x"));
    a.extracted.doc_date = Some(100);
    let b = doc(2, "h2", 2, vec![], Some("x"));
    let mut c = doc(3, "h3", 3, vec![], Some("x"));
    c.extracted.doc_date = Some(200);
    store.add_document(&a);
    store.add_document(&b);
    store.add_document(&c);
    let r = store.get_filtered_documents(0, 10, &no_filter(SortOrder::InferredDate), &vec![]);
    assert_eq!(r.iter().map(|d| d.id).collect::<Vec<_>>(), vec![3, 1, 2]);
}

#[test]
fn query_pruning_and_score_order() {
    // scores {a: 10, b: 2, c: 0.5} scaled by a thousand: max 10000,
    // threshold a tenth of it; c is excluded, a precedes b
    let mut store = MetadataStore::new();
    store.add_document(&doc(1, "ha", 1, vec![], Some("a")));
    store.add_document(&doc(2, "hb", 2, vec![], Some("b")));
    store.add_document(&doc(3, "hc", 3, vec![], Some("c")));
    let scores: Vec<(u64, u64)> = vec![(1, 10000), (2, 2000), (3, 500)];
    let filter = FilterOptions {
        sort: SortOrder::NoOrder,
        tags: vec![],
        query: Some("ipsum".to_string()),
    };
    let r = store.get_filtered_documents(0, 10, &filter, &scores);
    assert_eq!(r.iter().map(|d| d.id).collect::<Vec<_>>(), vec![1, 2]);
}

#[test]
fn filter_by_multiple_tags() {
    // documents with tags {1,2}, {1}, {2,3}; asking for [1,2] returns
    // only the first
    let mut store = MetadataStore::new();
    store.add_document(&doc(10, "h1", 3, vec![1, 2], Some("x")));
    store.add_document(&doc(11, "h2", 2, vec![1], Some("x")));
    store.add_document(&doc(12, "h3", 1, vec![2, 3], Some("x")));
    let filter = FilterOptions { sort: SortOrder::NoOrder, tags: vec![1, 2], query: None };
    let r = store.get_filtered_documents(0, 10, &filter, &vec![]);
    assert_eq!(r.len(), 1);
    assert_eq!(r[0].id, 10);
}

#[test]
fn query_with_tags_combines() {
    let mut store = MetadataStore::new();
    store.add_document(&doc(1, "h1", 1, vec![5], Some("x")));
    store.add_document(&doc(2, "h2", 2, vec![5], Some("x")));
    store.add_document(&doc(3, "h3", 3, vec![6], Some("x")));
    let scores: Vec<(u64, u64)> = vec![(1, 900), (2, 1000), (3, 1000)];
    let filter = FilterOptions {
        sort: SortOrder::NoOrder,
        tags: vec![5],
        query: Some("q".to_string()),
    };
    let r = store.get_filtered_documents(0, 10, &filter, &scores);
    // 3 lacks tag 5; 1 and 2 both above the tenth-of-max threshold,
    // ordered by score
    assert_eq!(r.iter().map(|d| d.id).collect::<Vec<_>>(), vec![2, 1]);
}

#[test]
fn patch_merges_fields() {
    let mut d = doc(1, "h1", 1, vec![1], Some("body"));
    d.patch(PatchDocumentData {
        title: Some("new title".to_string()),
        tags: None,
        language: Some("deu".to_string()),
        extracted: Some(PatchExtractedData {
            phone: Some(vec!["+49 123".to_string()]),
            email: None,
            link: None,
            iban: None,
            doc_date: Some(777),
        }),
    });
    assert_eq!(d.title, "new title");
    assert_eq!(d.tags, vec![1]);
    assert_eq!(d.language, Some("deu".to_string()));
    assert_eq!(d.extracted.phone, vec!["+49 123".to_string()]);
    assert_eq!(d.extracted.email, Vec::<String>::new());
    assert_eq!(d.extracted.doc_date, Some(777));
    assert_eq!(d.hash, "h1");
    assert_eq!(d.body, Some("body".to_string()));
}
