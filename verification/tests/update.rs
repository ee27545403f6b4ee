use ccline::update::{
    archive_extension, binary_name, is_newer, latest_release_url, latest_version,
    release_asset_url, release_target, ver_key,
};

#[test]
fn ver_key_reads_three_parts() {
    assert_eq!(ver_key("1.2.10"), (1, 2, 10));
    assert_eq!(ver_key("2.1.252"), (2, 1, 252));
}

#[test]
fn ver_key_missing_or_bad_parts_are_zero() {
    assert_eq!(ver_key(""), (0, 0, 0));
    assert_eq!(ver_key("3"), (3, 0, 0));
    assert_eq!(ver_key("1.x.3"), (1, 0, 3));
    assert_eq!(ver_key("1.2.3.4"), (1, 2, 3));
    assert_eq!(ver_key("1.2.3-beta"), (1, 2, 0));
    assert_eq!(ver_key("+1.2.3"), (1, 2, 3));
}

#[test]
fn newer_only_when_key_is_greater() {
    assert!(is_newer("1.2.10", "1.2.9"));
    assert!(is_newer("2.0.0", "1.9.9"));
    assert!(!is_newer("1.2.9", "1.2.10"));
    assert!(!is_newer("1.2.3", "1.2.3"));
    assert!(!is_newer("1.2.3", "1.2.3.9"));
}

#[test]
fn latest_version_from_redirect_url() {
    assert_eq!(
        latest_version("https://github.com/eng1n88r/ccline/releases/tag/v1.4.0\n"),
        Some("1.4.0".to_string())
    );
    assert_eq!(latest_version("  x/tag/v/tag/v2.0  "), Some("2.0".to_string()));
    assert_eq!(latest_version("https://github.com/eng1n88r/ccline/releases"), None);
    assert_eq!(latest_version("https://github.com/x/releases/tag/vbeta"), None);
    assert_eq!(latest_version("9.9.9"), Some("9.9.9".to_string()));
    assert_eq!(latest_version(""), None);
}

#[test]
fn release_targets_match_ci_matrix() {
    assert_eq!(release_target("linux", "x86_64"), Some("x86_64-unknown-linux-musl"));
    assert_eq!(release_target("linux", "aarch64"), Some("aarch64-unknown-linux-musl"));
    assert_eq!(release_target("macos", "x86_64"), Some("x86_64-apple-darwin"));
    assert_eq!(release_target("macos", "aarch64"), Some("aarch64-apple-darwin"));
    assert_eq!(release_target("windows", "x86_64"), Some("x86_64-pc-windows-msvc"));
    assert_eq!(release_target("windows", "aarch64"), None);
    assert_eq!(release_target("freebsd", "x86_64"), None);
}

#[test]
fn asset_names_and_urls() {
    assert_eq!(archive_extension(true), "zip");
    assert_eq!(archive_extension(false), "tar.gz");
    assert_eq!(binary_name(true), "ccline.exe");
    assert_eq!(binary_name(false), "ccline");
    assert_eq!(latest_release_url(), "https://github.com/eng1n88r/ccline/releases/latest");
    assert_eq!(
        release_asset_url("x86_64-unknown-linux-musl", false),
        "https://github.com/eng1n88r/ccline/releases/latest/download/ccline-x86_64-unknown-linux-musl.tar.gz"
    );
    assert_eq!(
        release_asset_url("x86_64-pc-windows-msvc", true),
        "https://github.com/eng1n88r/ccline/releases/latest/download/ccline-x86_64-pc-windows-msvc.zip"
    );
}

#[test]
fn version_key_roundtrip_law_example() {
    for (a, b, c) in [(0u64, 0u64, 0u64), (1, 2, 10), (u64::MAX, 7, 0)] {
        assert_eq!(ver_key(&format!("{a}.{b}.{c}")), (a, b, c));
    }
}
