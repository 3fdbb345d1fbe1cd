use shreddr::config::ShreddrConfig;
use shreddr::content::{ContentExtractor, ExtractCmd, ExtractPhase, ExtractStep};
use shreddr::file_repository::{LocalFileRepository, LocalFileRepositoryError};
use shreddr::id_allocator::{IdAllocator, IdAllocatorError};
use shreddr::job::{job_status, JobStatus};
use shreddr::watcher::PDFWatcher;

fn extractor() -> ContentExtractor {
    ContentExtractor::new(&vec!["deu".to_string(), "eng".to_string()])
}

#[test]
fn native_extraction_finishes_with_text() {
    let ex = extractor();
    let step = ex.extract_body("/in/scan.pdf");
    let file = match step {
        ExtractStep::Run { phase: ExtractPhase::Native, cmd: ExtractCmd::NativeExtract { file } } => {
            file
        },
        _ => panic!("a PDF must go to the native adapter first"),
    };
    assert_eq!(file, "/in/scan.pdf");
    let done = ex.continue_native(&file, Some("native text".to_string()));
    match done {
        ExtractStep::Finished { body } => assert_eq!(body, Some("native text".to_string())),
        _ => panic!("non-empty native text finishes the extraction"),
    }
}

#[test]
fn ocr_fallback_on_empty_text() {
    // a scanned PDF with empty native text goes through the OCR rewrite
    // and comes back with a body
    let ex = extractor();
    let step = ex.continue_native("/in/scan.pdf", Some(String::new()));
    let args = match step {
        ExtractStep::Run { phase: ExtractPhase::Rewrite, cmd: ExtractCmd::OcrRewrite { args } } => {
            args
        },
        _ => panic!("empty native text must fall back to OCR"),
    };
    assert_eq!(
        args,
        vec![
            "ocrmypdf",
            "--deskew",
            "--clean",
            "--force-ocr",
            "-l",
            "deu+eng",
            "/in/scan.pdf",
            "/in/scan.pdf",
        ]
    );
    let step = ex.continue_rewrite("/in/scan.pdf", true);
    match step {
        ExtractStep::Run { phase: ExtractPhase::PostOcr, cmd: ExtractCmd::NativeExtract { file } } => {
            assert_eq!(file, "/in/scan.pdf");
        },
        _ => panic!("a successful rewrite re-extracts"),
    }
    assert_eq!(ex.continue_post_ocr(Some("ocr text".to_string())), Some("ocr text".to_string()));
    assert_eq!(ex.continue_post_ocr(Some(String::new())), None);
    assert_eq!(ex.continue_post_ocr(None), None);
}

#[test]
fn failed_rewrite_yields_no_body() {
    let ex = extractor();
    match ex.continue_rewrite("/in/scan.pdf", false) {
        ExtractStep::Finished { body } => assert_eq!(body, None),
        _ => panic!("a failed rewrite finishes without a body"),
    }
}

#[test]
fn unsupported_extension_finishes_empty() {
    let ex = extractor();
    match ex.extract_body("/in/notes.txt") {
        ExtractStep::Finished { body } => assert_eq!(body, None),
        _ => panic!("only PDFs are extracted"),
    }
    match ex.ocr("/in/photo.jpg") {
        ExtractStep::Finished { body } => assert_eq!(body, None),
        _ => panic!("only PDFs are OCRed"),
    }
}

#[test]
fn extension_is_lowercased() {
    assert_eq!(ContentExtractor::extract_extension("/in/scan.PDF"), Some("pdf".to_string()));
    assert_eq!(ContentExtractor::extract_extension("/in/noext"), None);
    match extractor().extract_body("/in/scan.PDF") {
        ExtractStep::Run { .. } => {},
        _ => panic!("the extension check ignores case"),
    }
}

#[test]
fn thumbnail_command_shape() {
    let args = ContentExtractor::render_thumbnail("/docs/3.pdf", "/thumbnails/3.jpg");
    assert_eq!(
        args,
        vec![
            "convert",
            "-colorspace",
            "RGB",
            "/docs/3.pdf[0]",
            "-trim",
            "+repage",
            "-background",
            "white",
            "-flatten",
            "/thumbnails/3.jpg",
        ]
    );
}

#[test]
fn watcher_matches_pdf_only() {
    assert!(PDFWatcher::match_file("/consume/a.pdf"));
    assert!(!PDFWatcher::match_file("/consume/a.PDF"));
    assert!(!PDFWatcher::match_file("/consume/a.txt"));
    assert!(!PDFWatcher::match_file("/consume/pdf"));
    assert!(!PDFWatcher::match_file("/consume/.pdf"));
    let w = PDFWatcher::new("/consume");
    assert_eq!(w.dir(), "/consume");
}

#[test]
fn id_allocator_counts_up() {
    let mut a = IdAllocator::from_content(None).unwrap();
    assert_eq!(a.current(), 0);
    assert_eq!(a.next(), 1);
    assert_eq!(a.next(), 2);
    assert_eq!(a.file_content(), "2");
}

#[test]
fn id_allocator_restores_and_rejects() {
    let mut a = IdAllocator::from_content(Some("41")).unwrap();
    assert_eq!(a.next(), 42);
    assert!(matches!(
        IdAllocator::from_content(Some("not a number")),
        Err(IdAllocatorError::ParseError)
    ));
}

#[test]
fn file_repository_loads_listing() {
    let entries = vec!["3.pdf".to_string(), "documents".to_string(), "12.pdf".to_string()];
    let repo = LocalFileRepository::new("/data/documents", &entries).unwrap();
    assert_eq!(repo.get_document(3).unwrap(), "/data/documents/3.pdf");
    assert_eq!(repo.get_document(12).unwrap(), "/data/documents/12.pdf");
    assert!(matches!(
        repo.get_document(5),
        Err(LocalFileRepositoryError::DocumentNotFoundError(5))
    ));
}

#[test]
fn file_repository_rejects_stray_entries() {
    let entries = vec!["3.pdf".to_string(), "notes.txt".to_string()];
    assert!(matches!(
        LocalFileRepository::new("/data/documents", &entries),
        Err(LocalFileRepositoryError::ParseIdError(_))
    ));
}

#[test]
fn file_repository_add_remove() {
    let mut repo = LocalFileRepository::new("/data/documents", &vec![]).unwrap();
    let dest = repo.add_document(7, "/tmp/upload.pdf");
    assert_eq!(dest, "/data/documents/7.pdf");
    assert_eq!(repo.get_document(7).unwrap(), "/data/documents/7.pdf");
    assert_eq!(repo.remove_document(7), Some("/data/documents/7.pdf".to_string()));
    assert_eq!(repo.remove_document(7), None);
}

#[test]
fn config_defaults() {
    let cfg = ShreddrConfig::default();
    assert_eq!(cfg.max_upload_size, 20 * 1024 * 1024);
    assert!(cfg.extract_extended_metadata);
    assert!(!cfg.server);
    assert!(!cfg.is_startable());
    let cfg = ShreddrConfig { tesseract_languages: vec!["eng".to_string()], ..cfg };
    assert!(cfg.is_startable());
}

#[test]
fn job_status_reports() {
    match job_status(Some(("import /in/a.pdf".to_string(), 50)), 3) {
        JobStatus::Busy { current, progress, queue } => {
            assert_eq!(current, "import /in/a.pdf");
            assert_eq!(progress, 50);
            assert_eq!(queue, 3);
        },
        JobStatus::Idle => panic!("a current job reports busy"),
    }
    assert!(matches!(job_status(None, 0), JobStatus::Idle));
}

#[test]
fn header_is_printable() {
    assert!(!shreddr::header().is_empty());
}
