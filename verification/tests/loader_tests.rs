use cargo_backup::{load, Install, ParseError, RecordEntry};

fn install(features: &[&str], profile: &str, bins: &[&str]) -> Install {
    Install {
        features: features.iter().map(|f| f.to_string()).collect(),
        no_default_features: false,
        all_features: false,
        profile: profile.to_string(),
        target: None,
        version_req: None,
        bins: bins.iter().map(|b| b.to_string()).collect(),
    }
}

fn entry(id: &str, inst: Install) -> RecordEntry {
    RecordEntry { id: id.to_string(), install: inst }
}

#[test]
fn load_merges_identifier_and_metadata() {
    let entries = vec![
        entry(
            "foo 0.1.0 (registry+https://example.com/foo)",
            install(&["f1"], "release", &["foo"]),
        ),
    ];
    let packages = load(&entries).unwrap();
    assert_eq!(packages.len(), 1);
    assert_eq!(packages[0].name, "foo");
    assert_eq!(packages[0].version.text(), "0.1.0");
    assert_eq!(packages[0].features, vec!["f1".to_string()]);
    assert_eq!(packages[0].profile, "release");
    assert_eq!(packages[0].bins, vec!["foo".to_string()]);
    assert_eq!(packages[0].source_path, None);
}

#[test]
fn load_excludes_version_control_entries() {
    let entries = vec![
        entry("foo 0.1.0 (registry+https://example.com/foo)", install(&[], "release", &["foo"])),
        entry("bar 1.0.0 (git+https://example.com/bar#abc)", install(&[], "release", &["bar"])),
        entry("baz 2.0.0 (path+file:///home/user/baz)", install(&[], "debug", &[])),
    ];
    let packages = load(&entries).unwrap();
    assert_eq!(packages.len(), 2);
    assert_eq!(packages[0].name, "foo");
    assert_eq!(packages[1].name, "baz");
    assert_eq!(packages[1].source_path, Some("/home/user/baz".to_string()));
}

#[test]
fn load_fails_on_malformed_identifier() {
    let entries = vec![
        entry("foo 0.1.0 (registry+https://example.com/foo)", install(&[], "release", &[])),
        entry("broken", install(&[], "release", &[])),
    ];
    assert!(matches!(load(&entries), Err(ParseError::MalformedIdentifier)));
}

#[test]
fn load_fails_on_invalid_version() {
    let entries = vec![
        entry("foo 0.1 (registry+https://example.com/foo)", install(&[], "release", &[])),
    ];
    assert!(matches!(load(&entries), Err(ParseError::InvalidVersion)));
}
