use toolfind::parse::parse_rustc_date;
use toolfind::version::{DateVersion, SemVer};

fn sv(text: &str) -> SemVer {
    SemVer::parse(text.as_bytes()).unwrap()
}

#[test]
fn test_parse_rustc_date() {
    let cases: Vec<&[u8]> = vec![
        b"",
        b"rustc not found",
        b"rustc 1.34.0-nightly (097c04cf4 2019-02-24)",
        b"rustc 1.34.0-beta.1 (744b374ab 2019-02-26)",
        b"rustc 1.35.0-dev",
        b"rustc 1.32.0 (9fda7c223 2019-01-16)",
    ];
    let expected = vec![
        None,
        None,
        Some(DateVersion::new(
            Some(sv("1.34.0-nightly")),
            b"2019-02-24".to_vec(),
        )),
        Some(DateVersion::new(
            Some(sv("1.34.0-beta.1")),
            b"2019-02-26".to_vec(),
        )),
        Some(DateVersion::new(Some(sv("1.35.0-dev")), b"".to_vec())),
        Some(DateVersion::new(Some(sv("1.32.0")), b"2019-01-16".to_vec())),
    ];

    for (i, case) in cases.iter().enumerate() {
        assert_eq!(parse_rustc_date(case), expected[i]);
    }
}

#[test]
fn test_parse_unrelated_prose() {
    assert_eq!(parse_rustc_date(b"error: command not found"), None);
    assert_eq!(parse_rustc_date(b"some entirely unrelated output"), None);
    assert_eq!(parse_rustc_date(b"1.2.3"), None);
}

#[test]
fn test_parse_other_toolname() {
    assert_eq!(
        parse_rustc_date(b"mytool 2.10.3 (abc123 2020-05-06)"),
        Some(DateVersion::new(Some(sv("2.10.3")), b"2020-05-06".to_vec()))
    );
}

#[test]
fn test_parse_partial_keeps_date() {
    // The shape matches but `1.01.0` is not a valid semantic version
    // (leading zero): the version degrades to absent, the date is kept.
    assert_eq!(
        parse_rustc_date(b"rustc 1.01.0 (9fda7c223 2019-01-16)"),
        Some(DateVersion::new(None, b"2019-01-16".to_vec()))
    );
}

#[test]
fn test_parse_malformed_descriptor_drops_date() {
    // A descriptor that does not finish the date shape yields no date.
    assert_eq!(
        parse_rustc_date(b"rustc 1.32.0 (9fda7c223 2019-01)"),
        Some(DateVersion::new(Some(sv("1.32.0")), b"".to_vec()))
    );
}

#[test]
fn test_utf8_agrees_with_std() {
    // The parser accepts exactly the inputs std considers valid UTF-8:
    // append a parseable ASCII tail to each prefix and compare.
    let prefixes: Vec<Vec<u8>> = vec![
        vec![],
        b"plain ascii".to_vec(),
        "h\u{e9}llo w\u{f6}rld \u{2026}".as_bytes().to_vec(),
        vec![0x80],
        vec![0xc0, 0xaf],
        vec![0xc1, 0xbf],
        vec![0xc2],
        vec![0xc2, 0x41],
        vec![0xc2, 0xa9],
        vec![0xe0, 0x80, 0x80],
        vec![0xe0, 0xa0, 0x80],
        vec![0xed, 0x9f, 0xbf],
        vec![0xed, 0xa0, 0x80],
        vec![0xe2, 0x82, 0xac],
        vec![0xe2, 0x82],
        vec![0xf0, 0x80, 0x80, 0x80],
        vec![0xf0, 0x90, 0x80, 0x80],
        vec![0xf4, 0x8f, 0xbf, 0xbf],
        vec![0xf4, 0x90, 0x80, 0x80],
        vec![0xf5, 0x80, 0x80, 0x80],
        vec![0xfe],
        vec![0xff],
    ];
    for prefix in prefixes {
        let mut input = prefix.clone();
        input.extend_from_slice(b" rustc 1.32.0 (9fda7c223 2019-01-16)");
        assert_eq!(
            parse_rustc_date(&input).is_some(),
            std::str::from_utf8(&input).is_ok(),
            "prefix {:?}",
            prefix
        );
    }
}

#[test]
fn test_parse_invalid_utf8() {
    // Invalid UTF-8 behaves as an empty string: no match at all.
    let bytes: Vec<u8> = vec![0xff, 0xfe, b'r', b'u', b's', b't', b'c', b' ', b'1', b'.', b'2',
        b'.', b'3'];
    assert_eq!(parse_rustc_date(&bytes), None);
}
