use shreddr::migrations::{
    migrate, should_delete_index_file, DocumentDataV0, Documents, MigrationError, RepoFile,
};

fn v0(id: u64, inferred: Option<i64>) -> DocumentDataV0 {
    DocumentDataV0 {
        id,
        original_filename: format!("{}.pdf", id),
        title: format!("doc {}", id),
        body: None,
        tags: vec![1],
        imported_date: 100,
        inferred_date: inferred,
        language: Some("eng".to_string()),
        hash: format!("hash{}", id),
        file_size: 10,
    }
}

#[test]
fn legacy_records_migrate() {
    // a bare list of legacy records with an inferred date becomes a
    // versioned file whose extracted date carries the prior value
    let out = migrate(RepoFile::Legacy(vec![v0(1, Some(1700000000)), v0(2, None)])).unwrap();
    assert!(out.changed);
    assert!(out.wipe_index);
    assert!(out.reindex);
    assert_eq!(out.docs.version, 2);
    assert_eq!(out.docs.docs.len(), 2);
    assert_eq!(out.docs.docs[0].id, 1);
    assert_eq!(out.docs.docs[0].extracted.doc_date, Some(1700000000));
    assert!(out.docs.docs[0].extracted.phone.is_empty());
    assert_eq!(out.docs.docs[0].title, "doc 1");
    assert_eq!(out.docs.docs[1].extracted.doc_date, None);
}

#[test]
fn migration_is_idempotent() {
    // running the migration a second time on its own output is a no-op
    let first = migrate(RepoFile::Legacy(vec![v0(1, Some(1700000000))])).unwrap();
    let second = migrate(RepoFile::Current(first.docs)).unwrap();
    assert!(!second.changed);
    assert!(!second.wipe_index);
    assert!(!second.reindex);
    assert_eq!(second.docs.version, 2);
    assert_eq!(second.docs.docs.len(), 1);
    assert_eq!(second.docs.docs[0].extracted.doc_date, Some(1700000000));
}

#[test]
fn version_one_is_reindexed() {
    let out = migrate(RepoFile::Current(Documents { version: 1, docs: vec![] })).unwrap();
    assert!(out.changed);
    assert!(out.wipe_index);
    assert!(out.reindex);
    assert_eq!(out.docs.version, 2);
}

#[test]
fn newer_version_refused() {
    let r = migrate(RepoFile::Current(Documents { version: 3, docs: vec![] }));
    assert!(matches!(r, Err(MigrationError::Version(3))));
}

#[test]
fn wipe_targets_engine_files() {
    assert!(should_delete_index_file("/idx/0000.idx"));
    assert!(should_delete_index_file("segment.FAST"));
    assert!(should_delete_index_file("a.fieldnorm"));
    assert!(should_delete_index_file("x.lock"));
    assert!(should_delete_index_file("x.pos"));
    assert!(should_delete_index_file("x.posidx"));
    assert!(should_delete_index_file("x.store"));
    assert!(should_delete_index_file("x.term"));
    assert!(should_delete_index_file("/idx/meta.json"));
    assert!(!should_delete_index_file("/idx/docs.yaml"));
    assert!(!should_delete_index_file("meta.json.bak"));
    assert!(!should_delete_index_file("notes.txt"));
}
