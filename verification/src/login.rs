//! Signing an account in: recognising the session cookie, turning the
//! account check into a login result, and locating or fetching a browser
//! for the account window.

use vstd::prelude::*;
use crate::json::{Json, json_get, json_str, json_at, get_str, str_eq};
use crate::text::{owned, concat2, concat3, push_str, has_prefix, starts_with_str};
use crate::paths::{join_spec, join_path};
use crate::roblox_api::UserInfo;

verus! {

/// The name of the session cookie.
pub const SESSION_COOKIE: &'static str = ".ROBLOSECURITY";

pub const LOGIN_TIMED_OUT: &'static str = "Timed out waiting for login. Please try again, or use \"Paste Cookie\".";
pub const LOGIN_CLOSED: &'static str = "Login window closed";
pub const LOGIN_UNVERIFIED: &'static str = "Could not verify account.";

/// How long the login window waits for a sign-in (ms).
pub const LOGIN_TIMEOUT_MS: u64 = 300000;

/// Leftover login profiles older than this are swept (ns).
pub const STALE_PROFILE_NS: i128 = 21_600_000_000_000;

/// The outcome of a sign-in.
pub struct LoginResult {
    pub success: bool,
    pub cookie: Option<String>,
    pub username: Option<String>,
    pub user_id: Option<String>,
    pub error: Option<String>,
}

/// The session cookie among the browser's cookies: the first named
/// `.ROBLOSECURITY` whose value is longer than 100 bytes (shorter ones are
/// not a signed-in session).
pub open spec fn session_cookie_from(cookies: Seq<(String, String)>, i: int) -> Option<Seq<char>>
    decreases cookies.len() - i,
{
    if i < 0 || i >= cookies.len() {
        None
    } else if cookies[i].0@ == SESSION_COOKIE@ && vstd::utf8::encode_utf8(cookies[i].1@).len() as usize > 100 {
        Some(cookies[i].1@)
    } else {
        session_cookie_from(cookies, i + 1)
    }
}

pub fn pick_login_cookie(cookies: &Vec<(String, String)>) -> (r: Option<String>)
    ensures
        r matches Some(c) ==> session_cookie_from(cookies@, 0) == Some(c@),
        r is None ==> session_cookie_from(cookies@, 0) is None,
{
    let mut i: usize = 0;
    while i < cookies.len()
        invariant
            i <= cookies@.len(),
            session_cookie_from(cookies@, 0) == session_cookie_from(cookies@, i as int),
        decreases cookies.len() - i,
    {
        if str_eq(cookies[i].0.as_str(), SESSION_COOKIE) && cookies[i].1.as_str().len() > 100 {
            return Some(owned(cookies[i].1.as_str()));
        }
        i = i + 1;
    }
    None
}

/// A failed sign-in with its reason.
pub fn login_failed(reason: &str) -> (r: LoginResult)
    ensures
        !r.success,
        r.cookie is None && r.username is None && r.user_id is None,
        r.error matches Some(e) && e@ == reason@,
{
    LoginResult { success: false, cookie: None, username: None, user_id: None, error: Some(owned(reason)) }
}

/// The sign-in result once the session cookie was checked against the
/// account endpoint: the account's names on success, else the check's
/// reason (or a generic one).
pub fn login_from_user_info(cookie: String, info: UserInfo) -> (r: LoginResult)
    ensures
        r.success == info.ok,
        info.ok ==> r.cookie == Some(cookie) && r.username == info.username && r.user_id == info.user_id
            && r.error is None,
        !info.ok ==> r.cookie is None && r.username is None && r.user_id is None && (r.error matches Some(e)
            && e@ == match info.reason {
            Some(m) => m@,
            None => LOGIN_UNVERIFIED@,
        }),
{
    if !info.ok {
        let reason = match info.reason {
            Some(m) => m,
            None => owned(LOGIN_UNVERIFIED),
        };
        return LoginResult { success: false, cookie: None, username: None, user_id: None, error: Some(reason) };
    }
    LoginResult { success: true, cookie: Some(cookie), username: info.username, user_id: info.user_id, error: None }
}

/// What one poll of the login window decides before looking for the cookie:
/// give up after the timeout, or when the window was closed or the attempt
/// cancelled.
pub fn login_poll(elapsed_ms: u64, closed: bool, cancelled: bool) -> (r: Option<LoginResult>)
    ensures
        elapsed_ms >= LOGIN_TIMEOUT_MS ==> (r matches Some(l) && !l.success && (l.error matches Some(e)
            && e@ == LOGIN_TIMED_OUT@)),
        elapsed_ms < LOGIN_TIMEOUT_MS && (closed || cancelled) ==> (r matches Some(l) && !l.success && (
        l.error matches Some(e) && e@ == LOGIN_CLOSED@)),
        elapsed_ms < LOGIN_TIMEOUT_MS && !closed && !cancelled ==> r is None,
{
    if elapsed_ms >= LOGIN_TIMEOUT_MS {
        Some(login_failed(LOGIN_TIMED_OUT))
    } else if closed || cancelled {
        Some(login_failed(LOGIN_CLOSED))
    } else {
        None
    }
}

/// Whether a temporary-directory entry is a leftover login profile that
/// should be swept: named `mr-login-…` and last modified
/// more than six hours before `now` (ns since the epoch).
pub fn is_stale_login_profile(name: &str, modified: Option<i128>, now: i128) -> (r: bool)
    requires
        now >= i128::MIN + STALE_PROFILE_NS,
    ensures
        r == (has_prefix(name@, "mr-login-"@) && match modified {
            Some(t) => t < now - STALE_PROFILE_NS,
            None => false,
        }),
{
    if !starts_with_str(name, "mr-login-") {
        return false;
    }
    match modified {
        Some(t) => t < now - STALE_PROFILE_NS,
        None => false,
    }
}

/// Where an installed browser may be, in the order tried: Chrome under the
/// program folders and the local application data, then Edge, then Brave.
pub open spec fn chrome_paths_spec(pf: Seq<char>, pf86: Seq<char>, local: Seq<char>) -> Seq<Seq<char>> {
    seq![
        join_spec(join_spec(join_spec(join_spec(pf, "Google"@), "Chrome"@), "Application"@), "chrome.exe"@),
        join_spec(join_spec(join_spec(join_spec(pf86, "Google"@), "Chrome"@), "Application"@), "chrome.exe"@),
        join_spec(join_spec(join_spec(join_spec(local, "Google"@), "Chrome"@), "Application"@), "chrome.exe"@),
        join_spec(join_spec(join_spec(join_spec(pf86, "Microsoft"@), "Edge"@), "Application"@), "msedge.exe"@),
        join_spec(join_spec(join_spec(join_spec(pf, "Microsoft"@), "Edge"@), "Application"@), "msedge.exe"@),
        join_spec(join_spec(join_spec(join_spec(pf, "BraveSoftware"@), "Brave-Browser"@), "Application"@), "brave.exe"@),
        join_spec(join_spec(join_spec(join_spec(local, "BraveSoftware"@), "Brave-Browser"@), "Application"@), "brave.exe"@),
    ]
}

fn join4(base: &str, a: &str, b: &str, c: &str, d: &str) -> (r: String)
    ensures
        r@ == join_spec(join_spec(join_spec(join_spec(base@, a@), b@), c@), d@),
{
    let x = join_path(base, a);
    let y = join_path(x.as_str(), b);
    let z = join_path(y.as_str(), c);
    join_path(z.as_str(), d)
}

/// The browser locations, from the user profile folder and the program and
/// local application-data folders (each `None` when not set; the defaults
/// are the usual folders, local data under the profile).
pub fn system_chrome_paths(home: Option<&str>, pf: Option<&str>, pf86: Option<&str>, local: Option<&str>) -> (r: Vec<String>)
    ensures
        r@.map_values(|p: String| p@) == chrome_paths_spec(
            match pf {
                Some(p) => p@,
                None => "C:\\Program Files"@,
            },
            match pf86 {
                Some(p) => p@,
                None => "C:\\Program Files (x86)"@,
            },
            match local {
                Some(p) => p@,
                None => (match home {
                    Some(h) => h@,
                    None => Seq::<char>::empty(),
                }) + "\\AppData\\Local"@,
            },
        ),
{
    let pf_s = match pf {
        Some(p) => owned(p),
        None => owned("C:\\Program Files"),
    };
    let pf86_s = match pf86 {
        Some(p) => owned(p),
        None => owned("C:\\Program Files (x86)"),
    };
    let local_s = match local {
        Some(p) => owned(p),
        None => match home {
            Some(h) => concat2(h, "\\AppData\\Local"),
            None => concat2("", "\\AppData\\Local"),
        },
    };
    proof {
        reveal_strlit("");
    }
    let mut r: Vec<String> = Vec::new();
    r.push(join4(pf_s.as_str(), "Google", "Chrome", "Application", "chrome.exe"));
    r.push(join4(pf86_s.as_str(), "Google", "Chrome", "Application", "chrome.exe"));
    r.push(join4(local_s.as_str(), "Google", "Chrome", "Application", "chrome.exe"));
    r.push(join4(pf86_s.as_str(), "Microsoft", "Edge", "Application", "msedge.exe"));
    r.push(join4(pf_s.as_str(), "Microsoft", "Edge", "Application", "msedge.exe"));
    r.push(join4(pf_s.as_str(), "BraveSoftware", "Brave-Browser", "Application", "brave.exe"));
    r.push(join4(local_s.as_str(), "BraveSoftware", "Brave-Browser", "Application", "brave.exe"));
    assert(r@.map_values(|p: String| p@) =~= chrome_paths_spec(pf_s@, pf86_s@, local_s@));
    r
}

/// The current stable browser build in the browser-for-testing version
/// list: `channels.Stable.version`.
pub open spec fn stable_version_spec(j: Json) -> Option<Seq<char>> {
    json_str(json_at(json_at(json_get(j, "channels"@), "Stable"@), "version"@))
}

pub fn stable_chrome_version(versions: &Json) -> (r: Option<String>)
    ensures
        r matches Some(v) ==> stable_version_spec(*versions) == Some(v@),
        r is None ==> stable_version_spec(*versions) is None,
{
    proof {
        reveal_strlit("channels");
        reveal_strlit("Stable");
    }
    match versions.get("channels") {
        Some(c) => match c.get("Stable") {
            Some(s) => get_str(s, "version"),
            None => None,
        },
        None => None,
    }
}

/// Where the 64-bit Windows build of a browser-for-testing version is
/// downloaded from.
pub fn chrome_download_url(version: &str) -> (r: String)
    ensures
        r@ == "https://storage.googleapis.com/chrome-for-testing-public/"@ + version@
            + "/win64/chrome-win64.zip"@,
{
    concat3("https://storage.googleapis.com/chrome-for-testing-public/", version, "/win64/chrome-win64.zip")
}

/// Where a downloaded browser for the account window is kept.
pub fn chrome_cache_dir(app_dir: &str) -> (r: String)
    ensures
        r@ == join_spec(app_dir@, "chrome-for-login"@),
{
    join_path(app_dir, "chrome-for-login")
}

} // verus!
