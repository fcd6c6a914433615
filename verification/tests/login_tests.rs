use multiroblox::json::Json;
use multiroblox::login::{
    chrome_download_url, is_stale_login_profile, login_failed, login_from_user_info, login_poll,
    pick_login_cookie, stable_chrome_version, system_chrome_paths, LOGIN_CLOSED, LOGIN_TIMED_OUT,
};
use multiroblox::roblox_api::UserInfo;

#[test]
fn session_cookie_is_picked() {
    let long = "A".repeat(101);
    let cookies = vec![
        ("other".to_string(), long.clone()),
        (".ROBLOSECURITY".to_string(), "short".to_string()),
        (".ROBLOSECURITY".to_string(), long.clone()),
    ];
    assert_eq!(pick_login_cookie(&cookies), Some(long));
    let multibyte = "é".repeat(51);
    assert_eq!(pick_login_cookie(&vec![(".ROBLOSECURITY".to_string(), multibyte.clone())]), Some(multibyte));
    assert_eq!(pick_login_cookie(&vec![(".ROBLOSECURITY".to_string(), "A".repeat(100))]), None);
}

#[test]
fn login_results() {
    let ok = login_from_user_info(
        "C".to_string(),
        UserInfo { ok: true, username: Some("bob".to_string()), user_id: Some("1".to_string()), reason: None },
    );
    assert!(ok.success);
    assert_eq!(ok.cookie.as_deref(), Some("C"));
    assert_eq!(ok.username.as_deref(), Some("bob"));
    let bad = login_from_user_info("C".to_string(), UserInfo { ok: false, username: None, user_id: None, reason: None });
    assert!(!bad.success);
    assert_eq!(bad.cookie, None);
    assert_eq!(bad.error.as_deref(), Some("Could not verify account."));
    assert_eq!(login_failed("x").error.as_deref(), Some("x"));
    assert_eq!(login_poll(300_000, false, false).unwrap().error.as_deref(), Some(LOGIN_TIMED_OUT));
    assert_eq!(login_poll(10, true, false).unwrap().error.as_deref(), Some(LOGIN_CLOSED));
    assert_eq!(login_poll(10, false, true).unwrap().error.as_deref(), Some(LOGIN_CLOSED));
    assert!(login_poll(10, false, false).is_none());
}

#[test]
fn stale_profiles() {
    let hour: i128 = 3_600_000_000_000;
    let now = 100 * hour;
    assert!(is_stale_login_profile("mr-login-abc", Some(now - 7 * hour), now));
    assert!(!is_stale_login_profile("mr-login-abc", Some(now - 5 * hour), now));
    assert!(!is_stale_login_profile("mr-login-abc", None, now));
    assert!(!is_stale_login_profile("other", Some(0), now));
}

#[test]
fn browser_locations() {
    let p = system_chrome_paths(Some("C:\\Users\\a"), None, Some("D:\\PF86"), None);
    assert_eq!(p.len(), 7);
    assert_eq!(p[0], "C:\\Program Files\\Google\\Chrome\\Application\\chrome.exe");
    assert_eq!(p[1], "D:\\PF86\\Google\\Chrome\\Application\\chrome.exe");
    assert_eq!(p[2], "C:\\Users\\a\\AppData\\Local\\Google\\Chrome\\Application\\chrome.exe");
    assert_eq!(p[3], "D:\\PF86\\Microsoft\\Edge\\Application\\msedge.exe");
    assert_eq!(p[6], "C:\\Users\\a\\AppData\\Local\\BraveSoftware\\Brave-Browser\\Application\\brave.exe");
    let q = system_chrome_paths(None, None, None, Some("L:"));
    assert_eq!(q[2], "L:Google\\Chrome\\Application\\chrome.exe");
}

#[test]
fn browser_download() {
    let v = Json::Object(vec![(
        "channels".to_string(),
        Json::Object(vec![(
            "Stable".to_string(),
            Json::Object(vec![("version".to_string(), Json::Str("136.0.1".to_string()))]),
        )]),
    )]);
    assert_eq!(stable_chrome_version(&v), Some("136.0.1".to_string()));
    assert_eq!(stable_chrome_version(&Json::Null), None);
    assert_eq!(
        chrome_download_url("136.0.1"),
        "https://storage.googleapis.com/chrome-for-testing-public/136.0.1/win64/chrome-win64.zip"
    );
}
