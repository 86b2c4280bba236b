use ledgera::updates::{compare_versions, newest_release_index, normalize_version_tag, version_is_newer, GitHubRelease, ParsedVersion};

#[test]
fn normalizes_release_tags() {
    assert_eq!(normalize_version_tag("v1.2.3"), "1.2.3");
    assert_eq!(normalize_version_tag("1.2.3"), "1.2.3");
}

#[test]
fn detects_newer_versions() {
    assert!(version_is_newer("1.2.0", "1.1.9"));
    assert!(version_is_newer("1.2.1", "1.2.0"));
    assert!(!version_is_newer("1.2.0", "1.2.0"));
    assert!(!version_is_newer("1.1.9", "1.2.0"));
}

#[test]
fn compares_prerelease_versions() {
    assert!(version_is_newer("0.1.0-rc.2", "0.1.0-rc.1"));
    assert!(!version_is_newer("0.1.0-rc.1", "0.1.0-rc.2"));
    assert!(version_is_newer("0.1.0", "0.1.0-rc.2"));
    assert!(!version_is_newer("0.1.0-rc.2", "0.1.0"));
}

#[test]
fn compares_numeric_and_text_prerelease_identifiers() {
    assert!(compare_versions("1.0.0-rc.10", "1.0.0-rc.2").is_gt());
    assert!(compare_versions("1.0.0-beta", "1.0.0-beta.1").is_lt());
    assert!(compare_versions("1.0.0-1", "1.0.0-alpha").is_lt());
}

#[test]
fn parses_core_and_prerelease_parts() {
    let v = ParsedVersion::parse(" v1.2.x.3-rc..1 ");
    assert_eq!(v.core, vec![1, 2, 3]);
    assert_eq!(v.prerelease, vec!["rc".to_string(), "1".to_string()]);
    assert!(compare_versions("1.0", "1.0.0").is_eq());
}

#[test]
fn picks_newest_published_release() {
    let release = |tag: &str, draft: bool| GitHubRelease {
        tag_name: tag.to_string(),
        name: None,
        html_url: String::new(),
        published_at: None,
        draft,
    };
    let releases = vec![release("v1.1.0", false), release("v1.3.0", true), release("v1.2.0", false), release("v1.0.0", false)];
    assert_eq!(newest_release_index(&releases, "1.0.5"), Some(2));
    assert_eq!(newest_release_index(&releases, "1.2.0"), None);
}
