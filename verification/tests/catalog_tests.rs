use vpm_core::catalog::{PackageManifest, RemotePackages, VersionSelector};
use vpm_core::version::parse_version;

fn manifest(version: &str, yanked: bool) -> PackageManifest {
    PackageManifest::new(
        None,
        parse_version(version).unwrap(),
        version.to_string(),
        Some(format!("https://example.test/{}.zip", version)),
        yanked,
    )
}

#[test]
fn get_latest_skips_yanked() {
    // index offering 1.0.0 (yanked) and 0.9.0; a selector matching both
    let mut cat = RemotePackages::new();
    cat.insert(manifest("1.0.0", true));
    cat.insert(manifest("0.9.0", false));
    let best = cat.get_latest(&VersionSelector::Any).unwrap();
    assert_eq!(best.version_text, "0.9.0");
    assert!(!best.is_yanked());
}

#[test]
fn get_latest_never_yanked_even_when_only_match() {
    let mut cat = RemotePackages::new();
    cat.insert(manifest("1.0.0", true));
    assert!(cat.get_latest(&VersionSelector::Any).is_none());
}

#[test]
fn may_yanked_falls_back_to_yanked_pin() {
    let mut cat = RemotePackages::new();
    cat.insert(manifest("1.0.0", true));
    cat.insert(manifest("0.9.0", false));
    let pinned = VersionSelector::Exact(parse_version("1.0.0").unwrap());
    assert!(cat.get_latest(&pinned).is_none());
    let m = cat.get_latest_may_yanked(&pinned).unwrap();
    assert_eq!(m.version_text, "1.0.0");
    assert!(m.is_yanked());
}

#[test]
fn may_yanked_prefers_live_release() {
    let mut cat = RemotePackages::new();
    cat.insert(manifest("1.0.0", true));
    cat.insert(manifest("0.9.0", false));
    let m = cat.get_latest_may_yanked(&VersionSelector::Any).unwrap();
    assert_eq!(m.version_text, "0.9.0");
}

#[test]
fn get_latest_picks_greatest_matching() {
    let mut cat = RemotePackages::new();
    cat.insert(manifest("0.9.0", false));
    cat.insert(manifest("1.2.0", false));
    cat.insert(manifest("1.10.0", false));
    cat.insert(manifest("2.0.0-beta", false));
    let at_least_1 = VersionSelector::AtLeast(parse_version("1.0.0").unwrap());
    let m = cat.get_latest(&at_least_1).unwrap();
    assert_eq!(m.version_text, "2.0.0-beta");
}

#[test]
fn empty_catalog_yields_no_candidates() {
    let cat = RemotePackages::new();
    assert!(cat.all_versions().is_empty());
    assert!(cat.get_latest(&VersionSelector::Any).is_none());
    assert!(cat.get_latest_may_yanked(&VersionSelector::Any).is_none());
}

#[test]
fn insert_replaces_same_version() {
    let mut cat = RemotePackages::new();
    cat.insert(manifest("1.0.0", false));
    cat.insert(manifest("1.0.0", true));
    assert_eq!(cat.all_versions().len(), 1);
    assert!(cat.all_versions()[0].is_yanked());
}

#[test]
fn get_exact_version() {
    let mut cat = RemotePackages::new();
    cat.insert(manifest("1.0.0", false));
    cat.insert(manifest("1.1.0", false));
    let v = parse_version("1.1.0").unwrap();
    let m = cat.get(&v).unwrap();
    assert_eq!(m.version_text, "1.1.0");
    assert!(cat.get(&parse_version("9.9.9").unwrap()).is_none());
}

#[test]
fn selector_satisfies_rules() {
    let m = manifest("1.2.3", false);
    assert!(VersionSelector::Any.satisfies(&m));
    assert!(VersionSelector::Exact(parse_version("1.2.3").unwrap()).satisfies(&m));
    assert!(!VersionSelector::Exact(parse_version("1.2.4").unwrap()).satisfies(&m));
    assert!(VersionSelector::AtLeast(parse_version("1.0.0").unwrap()).satisfies(&m));
    assert!(VersionSelector::AtLeast(parse_version("1.2.3").unwrap()).satisfies(&m));
    assert!(!VersionSelector::AtLeast(parse_version("2.0.0").unwrap()).satisfies(&m));
}

#[test]
fn manifest_accessors() {
    let m = PackageManifest::new(
        Some("com.example.pkg".to_string()),
        parse_version("1.0.0").unwrap(),
        "1.0.0".to_string(),
        Some("https://example.test/p.zip".to_string()),
        false,
    );
    assert_eq!(m.name().unwrap(), "com.example.pkg");
    assert_eq!(m.url().unwrap(), "https://example.test/p.zip");
    assert_eq!(m.version().major, 1);
    assert!(!m.is_yanked());
}
