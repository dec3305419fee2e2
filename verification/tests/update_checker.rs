use alias_manager::error::AppError;
use alias_manager::update_checker::{
    is_newer, is_newer_given, latest_release_url, parse_version, request_failed,
    response_unreadable, update_info_for, version_from_parse, GitHubRelease, Version,
};

fn parsed(s: &str) -> Version {
    parse_version(s).unwrap()
}

#[test]
fn test_parse_version_plain() {
    assert_eq!(parse_version("0.1.0").unwrap(), Version::new(0, 1, 0));
}

#[test]
fn test_parse_version_with_v_prefix() {
    assert_eq!(parse_version("v0.2.0").unwrap(), Version::new(0, 2, 0));
}

#[test]
fn test_parse_version_with_uppercase_v_prefix() {
    assert_eq!(parse_version("V1.0.0").unwrap(), Version::new(1, 0, 0));
}

#[test]
fn test_parse_version_with_whitespace() {
    assert_eq!(parse_version("  v0.3.0  ").unwrap(), Version::new(0, 3, 0));
}

#[test]
fn test_parse_version_with_pre_release() {
    let v = parse_version("v1.2.3-beta.1").unwrap();
    assert_eq!(v.major, 1);
    assert_eq!(v.minor, 2);
    assert_eq!(v.patch, 3);
    assert!(v.pre.contains("beta"));
}

#[test]
fn test_parse_version_with_build_metadata() {
    let v = parse_version("v1.0.0+build.5").unwrap();
    assert_eq!(v.major, 1);
    assert_eq!(v.build, "build.5");
}

#[test]
fn test_parse_version_invalid_empty() {
    assert!(parse_version("").is_err());
}

#[test]
fn test_parse_version_invalid_text() {
    assert!(parse_version("not-a-version").is_err());
}

#[test]
fn test_parse_version_invalid_missing_patch() {
    assert!(parse_version("v1.2").is_err());
}

#[test]
fn test_parse_version_v_only() {
    assert!(parse_version("v").is_err());
}

#[test]
fn parse_error_names_the_tag() {
    match parse_version("v1.2") {
        Err(AppError::ParseError(m)) => assert!(m.starts_with("无法解析版本号 'v1.2': ")),
        other => panic!("unexpected: {:?}", other),
    }
}

#[test]
fn version_from_parse_maps_errors() {
    let ok = version_from_parse("v1.0.0", Ok(Version::new(1, 0, 0))).unwrap();
    assert_eq!(ok, Version::new(1, 0, 0));
    match version_from_parse("x", Err("bad".to_string())) {
        Err(AppError::ParseError(m)) => assert_eq!(m, "无法解析版本号 'x': bad"),
        other => panic!("unexpected: {:?}", other),
    }
}

#[test]
fn test_is_newer_true() {
    assert!(is_newer(&Version::new(0, 1, 0), &Version::new(0, 2, 0)));
}

#[test]
fn test_is_newer_false_same() {
    assert!(!is_newer(&Version::new(0, 1, 0), &Version::new(0, 1, 0)));
}

#[test]
fn test_is_newer_false_older() {
    assert!(!is_newer(&Version::new(1, 0, 0), &Version::new(0, 9, 0)));
}

#[test]
fn test_is_newer_patch_difference() {
    assert!(is_newer(&Version::new(1, 0, 0), &Version::new(1, 0, 1)));
}

#[test]
fn test_is_newer_major_difference() {
    assert!(is_newer(&Version::new(1, 5, 3), &Version::new(2, 0, 0)));
}

#[test]
fn test_is_newer_minor_difference() {
    assert!(is_newer(&Version::new(1, 0, 5), &Version::new(1, 1, 0)));
}

#[test]
fn test_is_newer_pre_release_is_lower() {
    assert!(!is_newer(&Version::new(1, 0, 0), &parsed("1.0.0-beta")));
}

#[test]
fn test_is_newer_pre_release_to_stable() {
    assert!(is_newer(&parsed("1.0.0-beta"), &Version::new(1, 0, 0)));
}

#[test]
fn pre_releases_compare_by_identifiers() {
    assert!(is_newer(&parsed("1.0.0-alpha"), &parsed("1.0.0-alpha.1")));
    assert!(is_newer(&parsed("1.0.0-beta.2"), &parsed("1.0.0-beta.11")));
    assert!(!is_newer(&parsed("1.0.0-rc.1"), &parsed("1.0.0-beta")));
}

#[test]
fn is_newer_given_uses_the_comparisons() {
    let a = Version { major: 1, minor: 0, patch: 0, pre: "x".to_string(), build: String::new() };
    let b = Version { major: 1, minor: 0, patch: 0, pre: "y".to_string(), build: String::new() };
    assert!(is_newer_given(&a, &b, Some(true), None));
    assert!(!is_newer_given(&a, &b, Some(false), None));
    assert!(!is_newer_given(&a, &b, None, None));
    // the numbers decide before the pre-release does
    assert!(is_newer_given(&a, &Version::new(1, 0, 1), Some(false), Some(false)));
}

#[test]
fn version_text_as_semver_prints_it() {
    assert_eq!(Version::new(0, 12, 3).to_text(), "0.12.3");
    assert_eq!(parsed("v1.2.3-beta.1+build.5").to_text(), "1.2.3-beta.1+build.5");
}

#[test]
fn latest_release_url_is_the_api_address() {
    assert_eq!(
        latest_release_url(),
        "https://api.github.com/repos/lq920320/rs-alias-manager/releases/latest"
    );
}

#[test]
fn network_errors() {
    match request_failed("timeout") {
        AppError::NetworkError(m) => assert_eq!(m, "GitHub API 请求失败: timeout"),
        _ => panic!(),
    }
    match response_unreadable("eof") {
        AppError::NetworkError(m) => assert_eq!(m, "解析 GitHub 响应失败: eof"),
        _ => panic!(),
    }
}

fn release(tag: &str, body: Option<&str>) -> GitHubRelease {
    GitHubRelease {
        tag_name: tag.to_string(),
        html_url: format!("https://github.com/owner/repo/releases/tag/{}", tag),
        body: body.map(|b| b.to_string()),
        published_at: Some("2025-05-27T10:00:00Z".to_string()),
    }
}

#[test]
fn update_info_reports_a_newer_release() {
    let info = update_info_for("0.1.0", release("v0.5.0", Some("## What's new\n- Feature A"))).unwrap();
    assert_eq!(info.current_version, "0.1.0");
    assert_eq!(info.latest_version, "0.5.0");
    assert!(info.has_update);
    assert_eq!(info.release_url, "https://github.com/owner/repo/releases/tag/v0.5.0");
    assert!(info.release_notes.unwrap().contains("Feature A"));
    assert_eq!(info.published_at.unwrap(), "2025-05-27T10:00:00Z");
}

#[test]
fn update_info_drops_blank_notes() {
    let info = update_info_for("v0.5.0", release("v0.5.0", Some("  \n "))).unwrap();
    assert!(!info.has_update);
    assert!(info.release_notes.is_none());
    let info = update_info_for("v0.5.0", release("v0.4.0", None)).unwrap();
    assert!(!info.has_update);
    assert!(info.release_notes.is_none());
}

#[test]
fn update_info_parse_errors() {
    assert!(matches!(update_info_for("bad", release("v1.0.0", None)), Err(AppError::ParseError(_))));
    match update_info_for("1.0.0", release("latest", None)) {
        Err(AppError::ParseError(m)) => assert!(m.contains("'latest'")),
        other => panic!("unexpected: {:?}", other),
    }
}
