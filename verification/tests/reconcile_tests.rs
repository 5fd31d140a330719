use cargo_backup::{check_bins_installed, reconcile, Package, Version};

fn pkg(name: &str, version: &str, bins: &[&str]) -> Package {
    Package {
        name: name.to_string(),
        features: vec![],
        all_features: false,
        no_default_features: false,
        version: Version::parse(version).unwrap(),
        profile: "release".to_string(),
        target: None,
        version_req: None,
        bins: bins.iter().map(|b| b.to_string()).collect(),
        source_path: None,
    }
}

fn strings(items: &[&str]) -> Vec<String> {
    items.iter().map(|s| s.to_string()).collect()
}

#[test]
fn test_install_packages() {
    let fake_packages: Vec<Package> = vec![
        Package {
            all_features: true,
            features: vec![],
            name: "foo".to_string(),
            no_default_features: false,
            version: Version::parse("0.1.0").unwrap(),
            profile: "release".to_string(),
            target: None,
            version_req: None,
            bins: vec!["foo".to_string()],
            source_path: None,
        },
        Package {
            name: "package".to_string(),
            version: Version::parse("0.5.3").unwrap(),
            all_features: false,
            no_default_features: false,
            features: vec!["feature1".to_string(), "feature2".to_string()],
            profile: "debug".to_string(),
            target: Some("x86_64-unknown-linux-gnu".to_string()),
            version_req: Some("=0.5.3".to_string()),
            bins: vec!["package".to_string(), "package-subcmd".to_string()],
            source_path: None,
        },
    ];

    let actions = reconcile(&fake_packages, &vec![], &vec![], false, false, false);
    assert_eq!(actions.to_install.len(), 2);
    assert_eq!(actions.to_install[0].name, "foo");
    assert_eq!(actions.to_install[1].name, "package");
    assert!(actions.to_update.is_empty());
    assert!(actions.to_remove.is_empty());
}

#[test]
fn reconcile_in_sync_is_empty() {
    let desired = vec![pkg("foo", "0.1.0", &["foo"]), pkg("bar", "2.0.0", &["bar", "bar2"])];
    let actual = vec![pkg("foo", "0.1.0", &["foo"]), pkg("bar", "2.0.0", &["bar", "bar2"])];
    let bins = strings(&["foo", "bar", "bar2"]);
    let actions = reconcile(&desired, &actual, &bins, false, false, false);
    assert!(actions.to_install.is_empty());
    assert!(actions.to_update.is_empty());
    assert!(actions.to_remove.is_empty());
}

#[test]
fn reconcile_is_deterministic() {
    let desired = vec![pkg("foo", "0.2.0", &["foo"]), pkg("new", "1.0.0", &["new"])];
    let actual = vec![pkg("foo", "0.1.0", &["foo"]), pkg("old", "1.0.0", &["old"])];
    let bins = strings(&["foo", "old"]);
    let first = reconcile(&desired, &actual, &bins, false, false, false);
    let second = reconcile(&desired, &actual, &bins, false, false, false);
    let names = |ps: &Vec<Package>| ps.iter().map(|p| p.name.clone()).collect::<Vec<_>>();
    assert_eq!(names(&first.to_install), names(&second.to_install));
    assert_eq!(names(&first.to_update), names(&second.to_update));
    assert_eq!(names(&first.to_remove), names(&second.to_remove));
}

#[test]
fn update_on_newer_desired_version() {
    let desired = vec![pkg("foo", "0.2.0", &["foo"])];
    let actual = vec![pkg("foo", "0.1.0", &["foo"])];
    let bins = strings(&["foo"]);
    let actions = reconcile(&desired, &actual, &bins, false, false, false);
    assert!(actions.to_install.is_empty());
    assert_eq!(actions.to_update.len(), 1);
    assert_eq!(actions.to_update[0].name, "foo");
    assert_eq!(actions.to_update[0].version.text(), "0.2.0");
    assert!(actions.to_remove.is_empty());
}

#[test]
fn no_update_on_equal_version() {
    let desired = vec![pkg("foo", "0.1.0", &["foo"])];
    let actual = vec![pkg("foo", "0.1.0", &["foo"])];
    let bins = strings(&["foo"]);
    let actions = reconcile(&desired, &actual, &bins, false, false, false);
    assert!(actions.to_update.is_empty());
}

#[test]
fn no_update_on_lower_desired_version() {
    let desired = vec![pkg("foo", "0.1.0", &["foo"])];
    let actual = vec![pkg("foo", "0.2.0", &["foo"])];
    let bins = strings(&["foo"]);
    let actions = reconcile(&desired, &actual, &bins, false, false, false);
    assert!(actions.to_update.is_empty());
    assert!(actions.to_install.is_empty());
    assert!(actions.to_remove.is_empty());
}

#[test]
fn remove_unmatched_actual_package() {
    let desired: Vec<Package> = vec![];
    let actual = vec![pkg("bar", "1.0.0", &["bar"])];
    let bins = strings(&["bar"]);
    let actions = reconcile(&desired, &actual, &bins, false, false, false);
    assert!(actions.to_install.is_empty());
    assert!(actions.to_update.is_empty());
    assert_eq!(actions.to_remove.len(), 1);
    assert_eq!(actions.to_remove[0].name, "bar");
}

#[test]
fn matched_package_is_not_removed() {
    let desired = vec![pkg("foo", "0.1.0", &["foo"])];
    let actual = vec![pkg("foo", "0.1.0", &["foo"]), pkg("bar", "1.0.0", &["bar"])];
    let bins = strings(&["foo", "bar"]);
    let actions = reconcile(&desired, &actual, &bins, false, false, false);
    assert_eq!(actions.to_remove.len(), 1);
    assert_eq!(actions.to_remove[0].name, "bar");
}

#[test]
fn broken_binaries_cause_reinstall() {
    let desired = vec![pkg("foo", "0.1.0", &["foo"])];
    let actual = vec![pkg("foo", "0.1.0", &["x"])];
    let bins: Vec<String> = vec![];
    let actions = reconcile(&desired, &actual, &bins, false, false, false);
    assert_eq!(actions.to_install.len(), 1);
    assert_eq!(actions.to_install[0].name, "foo");
}

#[test]
fn matched_package_with_no_declared_bins_is_reinstalled() {
    // the binary check is conservative: no declared binaries never counts
    // as verified, so a matched package without any is selected again
    let desired = vec![pkg("foo", "0.1.0", &[])];
    let actual = vec![pkg("foo", "0.1.0", &[])];
    let bins = strings(&["foo"]);
    let actions = reconcile(&desired, &actual, &bins, false, false, false);
    assert_eq!(actions.to_install.len(), 1);
}

#[test]
fn skip_install_leaves_install_list_empty() {
    let desired = vec![pkg("new", "1.0.0", &["new"])];
    let actual = vec![pkg("old", "0.1.0", &["old"])];
    let bins = strings(&["old"]);
    let actions = reconcile(&desired, &actual, &bins, true, false, false);
    assert!(actions.to_install.is_empty());
    assert_eq!(actions.to_remove.len(), 1);
}

#[test]
fn skip_update_leaves_update_list_empty() {
    let desired = vec![pkg("foo", "0.2.0", &["foo"])];
    let actual = vec![pkg("foo", "0.1.0", &["foo"])];
    let bins = strings(&["foo"]);
    let actions = reconcile(&desired, &actual, &bins, false, true, false);
    assert!(actions.to_update.is_empty());
}

#[test]
fn skip_remove_leaves_remove_list_empty() {
    let desired: Vec<Package> = vec![];
    let actual = vec![pkg("bar", "1.0.0", &["bar"])];
    let bins = strings(&["bar"]);
    let actions = reconcile(&desired, &actual, &bins, false, false, true);
    assert!(actions.to_remove.is_empty());
}

#[test]
fn check_bins_with_empty_declaration_is_false() {
    assert!(!check_bins_installed(&vec![], &strings(&["foo"])));
}

#[test]
fn check_bins_all_present() {
    assert!(check_bins_installed(&strings(&["a", "b"]), &strings(&["b", "c", "a"])));
}

#[test]
fn check_bins_one_missing() {
    assert!(!check_bins_installed(&strings(&["a", "b"]), &strings(&["a", "c"])));
}
