use shreddr::document::{DocumentData, ExtractedData};
use shreddr::tagger::{MatcherConfig, TagConfig, Tagger, TaggingError, TagsConfig};

fn tag(id: u64, name: &str, matcher: MatcherConfig) -> TagConfig {
    TagConfig { id, name: name.to_string(), color: None, matcher }
}

fn doc_with_body(body: Option<&str>) -> DocumentData {
    DocumentData {
        id: 1,
        original_filename: "a.pdf".to_string(),
        title: "a".to_string(),
        body: body.map(|b| b.to_string()),
        tags: vec![],
        imported_date: 0,
        hash: "h".to_string(),
        file_size: 0,
        language: None,
        extracted: ExtractedData {
            phone: vec![],
            email: vec![],
            link: vec![],
            iban: vec![],
            doc_date: None,
        },
    }
}

fn tagger_with(tags: Vec<TagConfig>) -> Tagger {
    let curr_id = tags.iter().map(|t| t.id).max().unwrap_or(0);
    Tagger::new(TagsConfig { curr_id, tags }).unwrap()
}

#[test]
fn regex_matcher_assigns_tag() {
    // a tag whose pattern anchors at the start of the body
    let t = tagger_with(vec![tag(
        1,
        "invoices",
        MatcherConfig::Regex { match_str: "^Inv".to_string() },
    )]);
    let mut d = doc_with_body(Some("Invoice number 42"));
    t.tag_document(&mut d).unwrap();
    assert_eq!(d.tags, vec![1]);
}

#[test]
fn full_matcher_case_insensitive() {
    let t = tagger_with(vec![tag(
        1,
        "invoices",
        MatcherConfig::Full { match_str: "invoice".to_string(), case_insensitive: true },
    )]);
    let mut d = doc_with_body(Some("Invoice number 42"));
    t.tag_document(&mut d).unwrap();
    assert_eq!(d.tags, vec![1]);
}

#[test]
fn full_matcher_case_sensitive_misses() {
    let t = tagger_with(vec![tag(
        1,
        "invoices",
        MatcherConfig::Full { match_str: "invoice".to_string(), case_insensitive: false },
    )]);
    let mut d = doc_with_body(Some("Invoice number 42"));
    t.tag_document(&mut d).unwrap();
    assert_eq!(d.tags, Vec::<u64>::new());
}

#[test]
fn any_matcher_matches_any_token() {
    let t = tagger_with(vec![tag(
        3,
        "finance",
        MatcherConfig::Any { match_str: "rechnung invoice receipt".to_string(), case_insensitive: true },
    )]);
    let mut d = doc_with_body(Some("Your RECEIPT is attached"));
    t.tag_document(&mut d).unwrap();
    assert_eq!(d.tags, vec![3]);

    let mut none = doc_with_body(Some("nothing relevant here"));
    t.tag_document(&mut none).unwrap();
    assert_eq!(none.tags, Vec::<u64>::new());
}

#[test]
fn empty_body_fails() {
    let t = tagger_with(vec![]);
    let mut d = doc_with_body(None);
    let r = t.tag_document(&mut d);
    assert!(matches!(r, Err(TaggingError::EmptyBody(1))));
}

#[test]
fn invalid_pattern_fails() {
    let t = tagger_with(vec![tag(1, "bad", MatcherConfig::Regex { match_str: "(".to_string() })]);
    let mut d = doc_with_body(Some("anything"));
    let r = t.tag_document(&mut d);
    assert!(matches!(r, Err(TaggingError::RegexError(_))));
    assert_eq!(d.tags, Vec::<u64>::new());
}

#[test]
fn infers_document_date() {
    // "Apr 21 2016" is found as a date-shaped substring and parses to
    // midnight UTC of that day
    let t = tagger_with(vec![]);
    let mut d = doc_with_body(Some("Received on Apr 21 2016 from the supplier."));
    t.tag_document(&mut d).unwrap();
    assert_eq!(d.extracted.doc_date, Some(1461196800));
}

#[test]
fn no_date_leaves_field() {
    let t = tagger_with(vec![]);
    let mut d = doc_with_body(Some("no calendar references here"));
    d.extracted.doc_date = Some(5);
    t.tag_document(&mut d).unwrap();
    assert_eq!(d.extracted.doc_date, Some(5));
}

#[test]
fn infers_language() {
    let t = tagger_with(vec![]);
    let mut d = doc_with_body(Some(
        "This is a fairly long English sentence that the trigram language detector \
         should recognize as English without any difficulty whatsoever.",
    ));
    t.tag_document(&mut d).unwrap();
    assert_eq!(d.language, Some("eng".to_string()));
}

#[test]
fn add_tag_assigns_fresh_ids() {
    let mut t = Tagger::new(TagsConfig::default()).unwrap();
    let a = t.add_tag(tag(99, "a", MatcherConfig::Regex { match_str: "a".to_string() }));
    let b = t.add_tag(tag(0, "b", MatcherConfig::Regex { match_str: "b".to_string() }));
    assert_eq!(a, 1);
    assert_eq!(b, 2);
    // the caller-provided id is ignored
    assert!(t.get_tag(99).is_none());
    assert_eq!(t.get_tag(1).unwrap().name, "a");
    assert_eq!(t.get_tag(2).unwrap().name, "b");
    assert_eq!(t.get_tags().len(), 2);
}

#[test]
fn add_or_replace_keeps_id() {
    let mut t = Tagger::new(TagsConfig::default()).unwrap();
    t.add_tag(tag(0, "a", MatcherConfig::Regex { match_str: "a".to_string() }));
    let replaced = t.add_or_replace_tag(tag(
        1,
        "a2",
        MatcherConfig::Regex { match_str: "a2".to_string() },
    ));
    assert_eq!(replaced, 1);
    assert_eq!(t.get_tag(1).unwrap().name, "a2");
    assert_eq!(t.get_tags().len(), 1);
    // an unknown id gets a fresh one instead
    let fresh = t.add_or_replace_tag(tag(42, "c", MatcherConfig::Regex { match_str: "c".to_string() }));
    assert_eq!(fresh, 2);
}

#[test]
fn remove_tag_drops_it() {
    let mut t = Tagger::new(TagsConfig::default()).unwrap();
    t.add_tag(tag(0, "a", MatcherConfig::Regex { match_str: "a".to_string() }));
    t.remove_tag(1);
    assert!(t.get_tag(1).is_none());
    assert!(t.get_tags().is_empty());
}

#[test]
fn corrupt_config_rejected() {
    let cfg = TagsConfig {
        curr_id: 0,
        tags: vec![tag(5, "above counter", MatcherConfig::Regex { match_str: "x".to_string() })],
    };
    assert!(matches!(Tagger::new(cfg), Err(TaggingError::ConfigError(_))));
}
