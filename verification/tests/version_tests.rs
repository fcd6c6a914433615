use multiroblox::version::{parse_semver, version_text};

#[test]
fn semver_accepts_strict_release_tags() {
    assert_eq!(parse_semver("v1.2.3"), Some((1, 2, 3)));
    assert_eq!(parse_semver("v10.0.45"), Some((10, 0, 45)));
}

#[test]
fn semver_rejects_other_tags() {
    assert_eq!(parse_semver("1.2.3"), None);
    assert_eq!(parse_semver("v1.0.8f"), None);
    assert_eq!(parse_semver("v1.2"), None);
    assert_eq!(parse_semver("v1.2.3.4"), None);
    assert_eq!(parse_semver("v1..3"), None);
}

#[test]
fn version_text_prints_dotted() {
    assert_eq!(version_text((1, 20, 300)), "1.20.300");
}

use multiroblox::json::Json;
use multiroblox::version::{latest_tag, update_check};

fn tag(name: &str) -> Json {
    Json::Object(vec![("name".to_string(), Json::Str(name.to_string()))])
}

#[test]
fn latest_ignores_suffixed_tags() {
    let tags = vec![tag("v1.0.8"), tag("v1.0.8ff"), tag("1.1.2"), tag("v1.0.10"), Json::Null, tag("v0.9.99")];
    assert_eq!(latest_tag(&tags), Some((1, 0, 10)));
    assert_eq!(latest_tag(&vec![tag("v1"), tag("beta")]), None);
}

#[test]
fn update_check_compares_with_current() {
    let tags = vec![tag("v1.2.0"), tag("v1.10.0")];
    let info = update_check("1.9.9", &tags).unwrap();
    assert_eq!(info.latest, (1, 10, 0));
    assert_eq!(info.latest_text, "1.10.0");
    assert!(info.update_available);
    assert!(!update_check("1.10.0", &tags).unwrap().update_available);
    assert!(!update_check("1.11.0", &tags).unwrap().update_available);
    assert!(update_check("garbage", &tags).unwrap().update_available);
    assert!(update_check("9.9.9", &vec![tag("x")]).is_none());
}

#[test]
fn same_build_as_newest_tag_is_no_update() {
    let tags = vec![tag("v1.1.1"), tag("1.1.2")];
    let info = update_check("1.1.1", &tags).unwrap();
    assert_eq!(info.latest, (1, 1, 1));
    assert!(!info.update_available);
}
