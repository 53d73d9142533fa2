use std::cmp::Ordering;

use toolfind::version::{DateVersion, SemVer};

fn sv(text: &str) -> SemVer {
    SemVer::parse(text.as_bytes()).unwrap()
}

#[test]
fn test_version_parse_fail() {
    let v2 = sv("1.1.0");
    let d1 = DateVersion::new(None, b"2019-01-01".to_vec());
    let d2 = DateVersion::new(Some(v2), b"2019-01-01".to_vec());

    assert!(d2 > d1);
}

#[test]
fn test_different_versions() {
    let v1 = sv("1.2.3");
    let v2 = sv("1.1.0");
    let d1 = DateVersion::new(Some(v1), b"2019-01-01".to_vec());
    let d2 = DateVersion::new(Some(v2), b"2019-01-01".to_vec());

    assert!(d2 < d1);
}

#[test]
fn test_many_nightly_strings() {
    let v = sv("1.0.0-nightly");
    let mut versions = vec![
        DateVersion::new(Some(v.clone()), b"2019-02-20".to_vec()),
        DateVersion::new(Some(v.clone()), b"2019-02-24".to_vec()),
        DateVersion::new(Some(v.clone()), b"2019-01-10".to_vec()),
    ];
    versions.sort_by(|a, b| a.cmp(b));

    assert_eq!(
        versions.pop().unwrap(),
        DateVersion::new(Some(v.clone()), b"2019-02-24".to_vec())
    );
}

#[test]
fn test_date_version_compare() {
    let d1 = DateVersion::new(Some(sv("1.34.0")), b"".to_vec());
    let d2 = DateVersion::new(Some(sv("1.33.0")), b"2019-04-20".to_vec());
    let d3 = DateVersion::new(Some(sv("1.33.0")), b"2019-04-17".to_vec());

    assert_eq!(d1.cmp(&d2), Ordering::Greater);
    assert_eq!(d2.cmp(&d3), Ordering::Greater);
}

#[test]
fn test_version_dominates_date() {
    // The lower version carries the later date and still loses.
    let high = DateVersion::new(Some(sv("1.2.3")), b"2018-01-01".to_vec());
    let low = DateVersion::new(Some(sv("1.1.0")), b"2019-09-09".to_vec());
    assert_eq!(high.cmp(&low), Ordering::Greater);
    assert!(low < high);
}

#[test]
fn test_semver_parse_fields() {
    assert_eq!(
        sv("1.32.0"),
        SemVer { major: 1, minor: 32, patch: 0, pre: Vec::new() }
    );
    assert_eq!(
        sv("2.10.7-beta.1"),
        SemVer { major: 2, minor: 10, patch: 7, pre: b"beta.1".to_vec() }
    );
    assert!(SemVer::parse(b"1.01.0").is_none());
    assert!(SemVer::parse(b"1.2").is_none());
    assert!(SemVer::parse(b"not a version").is_none());
}

#[test]
fn test_prerelease_sorts_below_release() {
    let pre = DateVersion::new(Some(sv("1.34.0-nightly")), b"2019-02-24".to_vec());
    let rel = DateVersion::new(Some(sv("1.34.0")), b"".to_vec());
    assert_eq!(pre.cmp(&rel), Ordering::Less);
    assert_eq!(rel.cmp(&pre), Ordering::Greater);
}

#[test]
fn test_prerelease_identifier_order() {
    let alpha = DateVersion::new(Some(sv("1.0.0-alpha")), b"".to_vec());
    let alpha1 = DateVersion::new(Some(sv("1.0.0-alpha.1")), b"".to_vec());
    let beta2 = DateVersion::new(Some(sv("1.0.0-beta.2")), b"".to_vec());
    let beta11 = DateVersion::new(Some(sv("1.0.0-beta.11")), b"".to_vec());
    assert!(alpha < alpha1);
    assert!(alpha1 < beta2);
    assert!(beta2 < beta11);
}

#[test]
fn test_equal_keys_compare_equal() {
    let a = DateVersion::new(Some(sv("1.34.0-nightly")), b"2019-02-24".to_vec());
    let b = DateVersion::new(Some(sv("1.34.0-nightly")), b"2019-02-24".to_vec());
    assert_eq!(a.cmp(&b), Ordering::Equal);
}
