use shreddr::text::{
    extension, file_name, file_stem, join_plus, parse_u64, split_tokens, to_ascii_lowercase,
    u64_to_string,
};

#[test]
fn parse_u64_plain() {
    assert_eq!(parse_u64("123"), Some(123));
    assert_eq!(parse_u64("0"), Some(0));
    assert_eq!(parse_u64("18446744073709551615"), Some(u64::MAX));
}

#[test]
fn parse_u64_plus_sign() {
    assert_eq!(parse_u64("+7"), Some(7));
    assert_eq!(parse_u64("+"), None);
}

#[test]
fn parse_u64_rejects() {
    assert_eq!(parse_u64(""), None);
    assert_eq!(parse_u64("12a"), None);
    assert_eq!(parse_u64("-3"), None);
    assert_eq!(parse_u64(" 5"), None);
}

#[test]
fn parse_u64_overflow() {
    assert_eq!(parse_u64("18446744073709551616"), None);
    assert_eq!(parse_u64("99999999999999999999999"), None);
}

#[test]
fn u64_to_string_renders() {
    assert_eq!(u64_to_string(0), "0");
    assert_eq!(u64_to_string(7), "7");
    assert_eq!(u64_to_string(1234), "1234");
    assert_eq!(u64_to_string(u64::MAX), "18446744073709551615");
}

#[test]
fn parse_format_round_trip() {
    for n in [0u64, 1, 10, 99, 1000000, u64::MAX] {
        assert_eq!(parse_u64(&u64_to_string(n)), Some(n));
    }
}

#[test]
fn file_name_components() {
    assert_eq!(file_name("/data/documents/12.pdf"), "12.pdf");
    assert_eq!(file_name("plain.pdf"), "plain.pdf");
    assert_eq!(file_name("/trailing/dir/"), "");
}

#[test]
fn extension_rules() {
    assert_eq!(extension("/a/b.pdf"), Some("pdf".to_string()));
    assert_eq!(extension("archive.tar.gz"), Some("gz".to_string()));
    assert_eq!(extension("/a/.hidden"), None);
    assert_eq!(extension("noext"), None);
    assert_eq!(extension("trailingdot."), Some("".to_string()));
}

#[test]
fn file_stem_rules() {
    assert_eq!(file_stem("/dir/12.pdf"), "12");
    assert_eq!(file_stem("noext"), "noext");
    assert_eq!(file_stem(".hidden"), ".hidden");
}

#[test]
fn lowercase_ascii_only() {
    assert_eq!(to_ascii_lowercase("PDF"), "pdf");
    assert_eq!(to_ascii_lowercase("MiXeD123"), "mixed123");
    assert_eq!(to_ascii_lowercase(""), "");
}

#[test]
fn split_tokens_on_whitespace() {
    assert_eq!(split_tokens("foo  bar\tbaz"), vec!["foo", "bar", "baz"]);
    assert_eq!(split_tokens("  leading and trailing  "), vec!["leading", "and", "trailing"]);
    assert_eq!(split_tokens(""), Vec::<String>::new());
    assert_eq!(split_tokens("   "), Vec::<String>::new());
    assert_eq!(split_tokens("one"), vec!["one"]);
}

#[test]
fn join_plus_languages() {
    assert_eq!(join_plus(&vec!["deu".to_string(), "eng".to_string()]), "deu+eng");
    assert_eq!(join_plus(&vec!["eng".to_string()]), "eng");
    assert_eq!(join_plus(&Vec::new()), "");
}
