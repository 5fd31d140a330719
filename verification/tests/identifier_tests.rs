use cargo_backup::{parse, ParseError, SourceKind, Version};

#[test]
fn test_slice_info() {
    let p = parse("foo 0.1.0 (path+file:///home/user/foo)").unwrap();
    assert_eq!(p.name, "foo");
    assert_eq!(p.version.text(), "0.1.0");
    assert!(p.kind != SourceKind::VersionControl);
    assert_eq!(p.source_path, Some("/home/user/foo".to_string()));

    let p = parse("foo 0.1.0 (registry+https://example.com/foo)").unwrap();
    assert_eq!(p.name, "foo");
    assert_eq!(p.version.text(), "0.1.0");
    assert!(p.kind != SourceKind::VersionControl);
    assert_eq!(p.source_path, None);

    let p = parse("foo 0.1.0 (git+https://github.com/foo/bar#hash)").unwrap();
    assert_eq!(p.name, "foo");
    assert_eq!(p.version.text(), "0.1.0");
    assert!(p.kind == SourceKind::VersionControl);
    assert_eq!(p.source_path, None);
}

#[test]
fn registry_identifier_is_registry_kind() {
    let p = parse("serde 1.0.100 (registry+https://github.com/rust-lang/crates.io-index)")
        .unwrap();
    assert_eq!(p.kind, SourceKind::Registry);
    assert_eq!(p.name, "serde");
    assert_eq!(p.version.text(), "1.0.100");
    assert_eq!(p.source_path, None);
}

#[test]
fn local_identifier_keeps_path_with_spaces() {
    let p = parse("mytool 2.3.4 (path+file:///home/a user/my tool)").unwrap();
    assert_eq!(p.kind, SourceKind::Local);
    assert_eq!(p.source_path, Some("/home/a user/my tool".to_string()));
}

#[test]
fn git_identifier_without_fragment() {
    let p = parse("bar 0.9.1 (git+https://example.com/bar)").unwrap();
    assert_eq!(p.kind, SourceKind::VersionControl);
    assert_eq!(p.source_path, None);
}

#[test]
fn malformed_identifier_with_no_tokens() {
    assert!(matches!(parse(""), Err(ParseError::MalformedIdentifier)));
}

#[test]
fn malformed_identifier_with_one_token() {
    assert!(matches!(parse("foo"), Err(ParseError::MalformedIdentifier)));
}

#[test]
fn malformed_identifier_with_two_tokens() {
    assert!(matches!(parse("foo 0.1.0"), Err(ParseError::MalformedIdentifier)));
}

#[test]
fn invalid_version_missing_patch() {
    assert!(matches!(
        parse("foo 1.0 (registry+https://example.com)"),
        Err(ParseError::InvalidVersion)
    ));
}

#[test]
fn invalid_version_not_a_number() {
    assert!(matches!(
        parse("foo abc (registry+https://example.com)"),
        Err(ParseError::InvalidVersion)
    ));
}

#[test]
fn version_parse_accepts_strict_semver_only() {
    assert!(Version::parse("0.1.0").is_some());
    assert!(Version::parse("1.2.3-alpha.1+build5").is_some());
    assert!(Version::parse("1.0").is_none());
    assert!(Version::parse("abc").is_none());
    assert!(Version::parse("1.0.01").is_none());
}

#[test]
fn version_ordering() {
    let v010 = Version::parse("0.1.0").unwrap();
    let v020 = Version::parse("0.2.0").unwrap();
    let v100a = Version::parse("1.0.0-alpha").unwrap();
    let v100 = Version::parse("1.0.0").unwrap();
    assert!(v020.newer_than(&v010));
    assert!(!v010.newer_than(&v020));
    assert!(!v010.newer_than(&v010));
    assert!(v100.newer_than(&v100a));
    assert!(!v100a.newer_than(&v100));
}
