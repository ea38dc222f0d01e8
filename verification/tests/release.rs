use loopbox::release::{is_newer_release_tag, normalize_release_tag, parse_semver_like};

#[test]
fn normalize_release_tag_keeps_expected_format() {
    assert_eq!(normalize_release_tag("0.1.1"), "v0.1.1");
    assert_eq!(normalize_release_tag("v0.2.0"), "v0.2.0");
    assert_eq!(normalize_release_tag("V1.0.0"), "v1.0.0");
    assert_eq!(normalize_release_tag("release-2026-02-21"), "release-2026-02-21");
}

#[test]
fn update_check_uses_semver_order() {
    assert!(is_newer_release_tag("v0.1.0", "v0.1.2"));
    assert!(!is_newer_release_tag("v0.1.2", "v0.1.2"));
    assert!(!is_newer_release_tag("v0.1.3", "v0.1.2"));
    assert!(is_newer_release_tag("0.1.2", "0.2.0"));
    assert!(!is_newer_release_tag("release-local", "v0.1.2"));
}

#[test]
fn semver_parser_reads_three_numbers() {
    assert_eq!(parse_semver_like("v1.2.3"), Some((1, 2, 3)));
    assert_eq!(parse_semver_like("1.2"), Some((1, 2, 0)));
    assert_eq!(parse_semver_like("release-local"), None);
}

#[test]
fn release_payload_is_normalised_with_page_fallback() {
    let info = loopbox::release::latest_release_from_payload(" 1.4.0 ", None).unwrap();
    assert_eq!(info.tag, "v1.4.0");
    assert_eq!(info.url, "https://github.com/cn0ss/loopbox/releases/latest");
    let info = loopbox::release::latest_release_from_payload(
        "V2.0.0",
        Some("https://example.test/r".to_string()),
    )
    .unwrap();
    assert_eq!(info.tag, "v2.0.0");
    assert_eq!(info.url, "https://example.test/r");
    let info = loopbox::release::latest_release_from_payload("v3", Some("  ".to_string())).unwrap();
    assert_eq!(info.url, "https://github.com/cn0ss/loopbox/releases/latest");
    assert_eq!(
        loopbox::release::latest_release_from_payload("   ", None),
        Err("GitHub latest release payload had an empty tag name.".to_string())
    );
    assert_eq!(
        loopbox::release::latest_release_api_url(),
        "https://api.github.com/repos/cn0ss/loopbox/releases/latest"
    );
}
