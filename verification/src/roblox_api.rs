//! What the launcher reads out of, and writes into, the web endpoints it
//! talks to: error messages, the authenticated user, the client version,
//! place ids, share-link replies, private-server access codes, the
//! authentication-ticket retry decisions and the request bodies.

use vstd::prelude::*;
use crate::json::{Json, JsonNumber, json_get, json_str, json_at, json_first, get_str, str_eq, json_parse, parse_json};
use crate::text::{
    chars_of, owned, concat2, concat3, push_str, push_char, string_of, string_of_range, trim,
    trim_str, all_ascii_digits, all_ascii_digits_exec, has_prefix, starts_with_str, occurs_at,
    occurs_at_exec, split_on, split_chars, decimal_run, decimal_run_end, space_run, space_run_end,
    code_run, code_run_end, run_until, run_until_end, parse_unsigned, parse_unsigned_bounded,
};
use crate::version::{decimal, signed_decimal, u64_text, i64_text, push_decimal};
use crate::web::{UrlParts, UrlView, url_parse, url_view, parse_url, pairs_view};

verus! {

pub const AUTH_RATE_LIMITED: &'static str = "Rate limited and could not refresh token. Wait a moment and try again.";
pub const AUTH_FORBIDDEN: &'static str = "Authentication failed (403). Cookie may be expired.";
pub const AUTH_STILL_LIMITED: &'static str = "Still rate limited after 3 attempts. Please wait 30 seconds and try again.";
pub const VERSION_MISSING: &'static str = "response missing version field";

// ---------------------------------------------------------------------------
// replies
// ---------------------------------------------------------------------------

/// The authenticated user behind a cookie, or why it could not be read.
pub struct UserInfo {
    pub ok: bool,
    pub username: Option<String>,
    pub user_id: Option<String>,
    pub reason: Option<String>,
}

/// An authentication ticket, or why none was obtained.
pub struct TicketResult {
    pub ok: bool,
    pub ticket: Option<String>,
    pub error: Option<String>,
}

/// A resolved share link: its place and link code, or why it failed.
pub struct ShareLinkResult {
    pub ok: bool,
    pub place_id: Option<String>,
    pub link_code: Option<String>,
    pub error: Option<String>,
}

/// The first `n` characters of `s` (all of it when shorter).
pub open spec fn take_chars(s: Seq<char>, n: nat) -> Seq<char> {
    if s.len() <= n {
        s
    } else {
        s.subrange(0, n as int)
    }
}

pub fn take_chars_exec(s: &str, n: usize) -> (r: String)
    ensures
        r@ == take_chars(s@, n as nat),
{
    let v = chars_of(s);
    if v.len() <= n {
        string_of(&v)
    } else {
        string_of_range(&v, 0, n)
    }
}

/// The human message of an error reply: `errors[0].message`, else
/// `message`, else (also when the body is not JSON) the first 200
/// characters of the body.
pub open spec fn roblox_error_spec(body: Seq<char>, parsed: Option<Json>) -> Seq<char> {
    let first_error = json_str(json_at(json_first(json_at(parsed, "errors"@)), "message"@));
    let flat = json_str(json_at(parsed, "message"@));
    match first_error {
        Some(m) => m,
        None => match flat {
            Some(m) => m,
            None => take_chars(body, 200),
        },
    }
}

/// Pulls the human message out of an error reply. `parsed` is the body read
/// as JSON, `None` when it is not JSON.
pub fn roblox_error_from(body: &str, parsed: Option<&Json>) -> (r: String)
    ensures
        r@ == roblox_error_spec(body@, match parsed {
            Some(j) => Some(*j),
            None => None,
        }),
{
    proof {
        reveal_strlit("errors");
        reveal_strlit("message");
    }
    match parsed {
        Some(v) => {
            match v.get("errors") {
                Some(e) => match e.first() {
                    Some(first) => match get_str(first, "message") {
                        Some(m) => {
                            return m;
                        },
                        None => {},
                    },
                    None => {},
                },
                None => {},
            }
            match get_str(v, "message") {
                Some(m) => {
                    return m;
                },
                None => {},
            }
        },
        None => {},
    }
    take_chars_exec(body, 200)
}

/// How `Display` prints a JSON number.
pub open spec fn number_text(n: JsonNumber) -> Seq<char> {
    match n {
        JsonNumber::PosInt(u) => decimal(u as nat),
        JsonNumber::NegInt(i) => signed_decimal(i as int),
        JsonNumber::Float(t) => t@,
    }
}

/// A user id as text: a number printed, a string as is, anything else empty.
pub open spec fn id_text(v: Json) -> Seq<char> {
    match v {
        Json::Number(n) => number_text(n),
        Json::Str(s) => s@,
        _ => Seq::<char>::empty(),
    }
}

/// Plain-value form of a `UserInfo`.
pub open spec fn user_info_view(u: UserInfo) -> (bool, Option<Seq<char>>, Option<Seq<char>>, Option<Seq<char>>) {
    (u.ok, crate::web::opt_str_view(u.username), crate::web::opt_str_view(u.user_id), crate::web::opt_str_view(u.reason))
}

/// The user behind a cookie from the reply of the authenticated-user
/// endpoint: a JSON object with an `id` is the user (its `name` as user
/// name); anything else fails with the reply's error message.
pub open spec fn user_info_spec(body: Seq<char>, parsed: Option<Json>) -> (bool, Option<Seq<char>>, Option<Seq<char>>, Option<Seq<char>>) {
    match json_at(parsed, "id"@) {
        Some(id) => (true, json_str(json_at(parsed, "name"@)), Some(id_text(id)), None),
        None => (false, None, None, Some(roblox_error_spec(body, parsed))),
    }
}

fn number_string(n: &JsonNumber) -> (r: String)
    ensures
        r@ == number_text(*n),
{
    match n {
        JsonNumber::PosInt(u) => u64_text(*u),
        JsonNumber::NegInt(i) => i64_text(*i),
        JsonNumber::Float(t) => owned(t.as_str()),
    }
}

pub fn user_info_from_reply(body: &str, parsed: Option<&Json>) -> (r: UserInfo)
    ensures
        user_info_view(r) == user_info_spec(body@, match parsed {
            Some(j) => Some(*j),
            None => None,
        }),
{
    proof {
        reveal_strlit("id");
        reveal_strlit("name");
    }
    match parsed {
        Some(d) => match d.get("id") {
            Some(id) => {
                let user_id = match id {
                    Json::Number(n) => number_string(n),
                    Json::Str(s) => owned(s.as_str()),
                    _ => String::new(),
                };
                return UserInfo {
                    ok: true,
                    username: get_str(d, "name"),
                    user_id: Some(user_id),
                    reason: None,
                };
            },
            None => {},
        },
        None => {},
    }
    UserInfo { ok: false, username: None, user_id: None, reason: Some(roblox_error_from(body, parsed)) }
}

/// A request that never got a reply: the transport error's message.
pub fn user_info_failed(reason: &str) -> (r: UserInfo)
    ensures
        user_info_view(r) == (false, None::<Seq<char>>, None::<Seq<char>>, Some(reason@)),
{
    UserInfo { ok: false, username: None, user_id: None, reason: Some(owned(reason)) }
}

/// Pulls the human message out of an error reply's text: the body is read
/// as JSON (see `roblox_error_from`).
pub fn extract_roblox_error(body: &str) -> (r: String)
    ensures
        r@ == roblox_error_spec(body@, json_parse(body@)),
{
    let parsed = parse_json(body);
    roblox_error_from(body, parsed.as_ref())
}

/// The user behind a cookie from the text of the authenticated-user reply:
/// the body is read as JSON (see `user_info_from_reply`).
pub fn user_info_from_body(body: &str) -> (r: UserInfo)
    ensures
        user_info_view(r) == user_info_spec(body@, json_parse(body@)),
{
    let parsed = parse_json(body);
    user_info_from_reply(body, parsed.as_ref())
}

/// The client version in a client-version reply: `clientVersionUpload`, or,
/// when that member is absent, `version`; it must be a string.
pub open spec fn client_version_spec(reply: Json) -> Option<Seq<char>> {
    match json_get(reply, "clientVersionUpload"@) {
        Some(v) => json_str(Some(v)),
        None => json_str(json_get(reply, "version"@)),
    }
}

pub fn client_version(reply: &Json) -> (r: Result<String, String>)
    ensures
        r matches Ok(v) ==> client_version_spec(*reply) == Some(v@),
        r matches Err(e) ==> client_version_spec(*reply) is None && e@ == VERSION_MISSING@,
{
    proof {
        reveal_strlit("clientVersionUpload");
        reveal_strlit("version");
    }
    let v = match reply.get("clientVersionUpload") {
        Some(v) => Some(v),
        None => reply.get("version"),
    };
    match v {
        Some(j) => match j.as_str() {
            Some(s) => Ok(owned(s.as_str())),
            None => Err(owned(VERSION_MISSING)),
        },
        None => Err(owned(VERSION_MISSING)),
    }
}

// ---------------------------------------------------------------------------
// place ids
// ---------------------------------------------------------------------------

/// The non-empty pieces of `p`, in order.
pub open spec fn nonempty_pieces(p: Seq<Seq<char>>) -> Seq<Seq<char>>
    decreases p.len(),
{
    if p.len() == 0 {
        Seq::<Seq<char>>::empty()
    } else {
        let r = nonempty_pieces(p.drop_last());
        if p.last().len() > 0 {
            r.push(p.last())
        } else {
            r
        }
    }
}

/// The non-empty path segments of a URL path (none when the path does not
/// start with `/`).
pub open spec fn path_segments(path: Seq<char>) -> Seq<Seq<char>> {
    if path.len() > 0 && path[0] == '/' {
        nonempty_pieces(split_on(path.drop_first(), '/'))
    } else {
        Seq::<Seq<char>>::empty()
    }
}

/// The first `placeId` query value made of ASCII digits only (possibly empty).
pub open spec fn first_digit_place_id(q: Seq<(Seq<char>, Seq<char>)>) -> Option<Seq<char>>
    decreases q.len(),
{
    if q.len() == 0 {
        None
    } else if q[0].0 == "placeId"@ && all_ascii_digits(q[0].1) {
        Some(q[0].1)
    } else {
        first_digit_place_id(q.drop_first())
    }
}

/// The place id behind a place id or game link: a bare number is itself;
/// otherwise the text is read as a URL (`https://` put in front unless it
/// starts with `http`), and `/games/<digits>/...` or a numeric `placeId`
/// query value gives the id.
pub open spec fn extract_place_id_spec(x: Seq<char>) -> Option<Seq<char>> {
    let t = trim(x);
    if all_ascii_digits(t) && t.len() > 0 {
        Some(t)
    } else {
        let raw = if has_prefix(t, "http"@) {
            t
        } else {
            "https://"@ + t
        };
        match url_parse(raw) {
            None => None,
            Some(u) => {
                let segs = path_segments(u.1);
                if segs.len() >= 2 && segs[0] == "games"@ && all_ascii_digits(segs[1]) {
                    Some(segs[1])
                } else {
                    first_digit_place_id(u.2)
                }
            },
        }
    }
}

fn first_two_segments(path: &str) -> (r: (Option<String>, Option<String>))
    ensures
        ({
            let segs = path_segments(path@);
            &&& (r.0 matches Some(a) ==> segs.len() >= 1 && segs[0] == a@)
            &&& (r.0 is None ==> segs.len() < 1)
            &&& (r.1 matches Some(b) ==> segs.len() >= 2 && segs[1] == b@)
            &&& (r.1 is None ==> segs.len() < 2)
        }),
{
    let pv = chars_of(path);
    if pv.len() == 0 || pv[0] != '/' {
        return (None, None);
    }
    let rest = string_of_range(&pv, 1, pv.len());
    assert(rest@ =~= path@.drop_first());
    let rv = chars_of(rest.as_str());
    let pieces = split_chars(&rv, '/');
    let ghost ps = split_on(rv@, '/');
    let mut kept: Vec<String> = Vec::new();
    let mut i: usize = 0;
    assert(ps.subrange(0, 0) =~= Seq::<Seq<char>>::empty());
    while i < pieces.len()
        invariant
            i <= pieces@.len(),
            pieces@.len() == ps.len(),
            forall|k: int| 0 <= k < pieces@.len() ==> (#[trigger] pieces@[k])@ == ps[k],
            kept@.len() == nonempty_pieces(ps.subrange(0, i as int)).len(),
            forall|k: int| 0 <= k < kept@.len() ==> (#[trigger] kept@[k])@ == nonempty_pieces(ps.subrange(0, i as int))[k],
        decreases pieces.len() - i,
    {
        assert(ps.subrange(0, i + 1).drop_last() =~= ps.subrange(0, i as int));
        assert(ps.subrange(0, i + 1).last() == ps[i as int]);
        if pieces[i].len() > 0 {
            kept.push(string_of(&pieces[i]));
        }
        i = i + 1;
    }
    assert(ps.subrange(0, ps.len() as int) =~= ps);
    let a = if kept.len() >= 1 {
        Some(owned(kept[0].as_str()))
    } else {
        None
    };
    let b = if kept.len() >= 2 {
        Some(owned(kept[1].as_str()))
    } else {
        None
    };
    (a, b)
}

fn first_digit_place_id_exec(u: &UrlParts) -> (r: Option<String>)
    ensures
        r matches Some(s) ==> first_digit_place_id(pairs_view(u.query@)) == Some(s@),
        r is None ==> first_digit_place_id(pairs_view(u.query@)) is None,
{
    proof {
        reveal_strlit("placeId");
    }
    let ghost q = pairs_view(u.query@);
    let mut i: usize = 0;
    assert(q.skip(0) =~= q);
    while i < u.query.len()
        invariant
            i <= u.query@.len(),
            q == pairs_view(u.query@),
            first_digit_place_id(q) == first_digit_place_id(q.skip(i as int)),
        decreases u.query.len() - i,
    {
        assert(q.skip(i as int)[0] == q[i as int]);
        assert(q.skip(i as int).drop_first() =~= q.skip(i + 1));
        let v = chars_of(u.query[i].1.as_str());
        if str_eq(u.query[i].0.as_str(), "placeId") && all_ascii_digits_exec(&v) {
            return Some(owned(u.query[i].1.as_str()));
        }
        i = i + 1;
    }
    None
}

/// Reads the place id behind a place id or game link.
pub fn extract_place_id(place_id_or_target: &str) -> (r: Option<String>)
    ensures
        r matches Some(s) ==> extract_place_id_spec(place_id_or_target@) == Some(s@),
        r is None ==> extract_place_id_spec(place_id_or_target@) is None,
{
    proof {
        reveal_strlit("games");
    }
    let t = trim_str(place_id_or_target);
    let tv = chars_of(t.as_str());
    if all_ascii_digits_exec(&tv) && tv.len() > 0 {
        return Some(t);
    }
    let raw = if starts_with_str(t.as_str(), "http") {
        t
    } else {
        concat2("https://", t.as_str())
    };
    let u = match parse_url(raw.as_str()) {
        None => return None,
        Some(u) => u,
    };
    let (a, b) = first_two_segments(u.path.as_str());
    match (a, b) {
        (Some(a), Some(b)) => {
            let bv = chars_of(b.as_str());
            if str_eq(a.as_str(), "games") && all_ascii_digits_exec(&bv) {
                return Some(b);
            }
        },
        _ => {},
    }
    first_digit_place_id_exec(&u)
}

// ---------------------------------------------------------------------------
// share links and access codes
// ---------------------------------------------------------------------------

/// Where `"placeId" : <digits>` first occurs at or after `i`: the digits.
pub open spec fn place_id_member_from(b: Seq<char>, i: int) -> Option<Seq<char>>
    decreases b.len() - i,
{
    if i < 0 || i >= b.len() {
        None
    } else {
        let a = i + 9 + space_run(b, i + 9);
        let c = a + 1 + space_run(b, a + 1);
        if occurs_at(b, i, "\"placeId\""@) && a < b.len() && b[a] == ':' && decimal_run(b, c) > 0 {
            Some(b.subrange(c, c + decimal_run(b, c)))
        } else {
            place_id_member_from(b, i + 1)
        }
    }
}

/// Length of the quoted link-code member name starting at `i`
/// (`"linkCode"`, `"privateServerLinkCode"`, `"accessCode"` or `"linkcode"`).
pub open spec fn code_name_len(b: Seq<char>, i: int) -> int {
    if occurs_at(b, i, "\"linkCode\""@) {
        10
    } else if occurs_at(b, i, "\"privateServerLinkCode\""@) {
        23
    } else if occurs_at(b, i, "\"accessCode\""@) {
        12
    } else if occurs_at(b, i, "\"linkcode\""@) {
        10
    } else {
        0
    }
}

/// Where a link-code member `"name" : "<code>"` first occurs at or after
/// `i`: the code (letters, digits, `_`, `-`).
pub open spec fn link_code_member_from(b: Seq<char>, i: int) -> Option<Seq<char>>
    decreases b.len() - i,
{
    if i < 0 || i >= b.len() {
        None
    } else {
        let n = code_name_len(b, i);
        let a = i + n + space_run(b, i + n);
        let c = a + 1 + space_run(b, a + 1);
        let e = c + 1 + code_run(b, c + 1);
        if n > 0 && a < b.len() && b[a] == ':' && c < b.len() && b[c] == '"' && code_run(b, c + 1) > 0
            && e < b.len() && b[e] == '"' {
            Some(b.subrange(c + 1, e))
        } else {
            link_code_member_from(b, i + 1)
        }
    }
}

/// The place id and link code of a share-link resolution reply, each taken
/// from its first occurrence in the raw body.
pub open spec fn place_link_spec(body: Seq<char>) -> Option<(Seq<char>, Seq<char>)> {
    match (place_id_member_from(body, 0), link_code_member_from(body, 0)) {
        (Some(p), Some(c)) => Some((p, c)),
        _ => None,
    }
}

fn place_id_member(b: &Vec<char>) -> (r: Option<String>)
    ensures
        r matches Some(s) ==> place_id_member_from(b@, 0) == Some(s@),
        r is None ==> place_id_member_from(b@, 0) is None,
{
    let pat = chars_of("\"placeId\"");
    proof {
        reveal_strlit("\"placeId\"");
    }
    let mut i: usize = 0;
    while i < b.len()
        invariant
            i <= b.len(),
            pat@ == "\"placeId\""@,
            pat@.len() == 9,
            place_id_member_from(b@, 0) == place_id_member_from(b@, i as int),
        decreases b.len() - i,
    {
        if occurs_at_exec(b, i, &pat) {
            let a = space_run_end(b, i + 9);
            if a < b.len() && b[a] == ':' {
                let c = space_run_end(b, a + 1);
                let e = decimal_run_end(b, c);
                if e > c {
                    return Some(string_of_range(b, c, e));
                }
            }
        }
        i = i + 1;
    }
    None
}

fn code_name_len_exec(b: &Vec<char>, i: usize, p1: &Vec<char>, p2: &Vec<char>, p3: &Vec<char>, p4: &Vec<char>) -> (r: usize)
    requires
        p1@ == "\"linkCode\""@,
        p2@ == "\"privateServerLinkCode\""@,
        p3@ == "\"accessCode\""@,
        p4@ == "\"linkcode\""@,
    ensures
        r as int == code_name_len(b@, i as int),
{
    if occurs_at_exec(b, i, p1) {
        10
    } else if occurs_at_exec(b, i, p2) {
        23
    } else if occurs_at_exec(b, i, p3) {
        12
    } else if occurs_at_exec(b, i, p4) {
        10
    } else {
        0
    }
}

fn link_code_member(b: &Vec<char>) -> (r: Option<String>)
    ensures
        r matches Some(s) ==> link_code_member_from(b@, 0) == Some(s@),
        r is None ==> link_code_member_from(b@, 0) is None,
{
    let p1 = chars_of("\"linkCode\"");
    let p2 = chars_of("\"privateServerLinkCode\"");
    let p3 = chars_of("\"accessCode\"");
    let p4 = chars_of("\"linkcode\"");
    proof {
        reveal_strlit("\"linkCode\"");
        reveal_strlit("\"privateServerLinkCode\"");
        reveal_strlit("\"accessCode\"");
        reveal_strlit("\"linkcode\"");
    }
    let mut i: usize = 0;
    while i < b.len()
        invariant
            i <= b.len(),
            p1@ == "\"linkCode\""@,
            p2@ == "\"privateServerLinkCode\""@,
            p3@ == "\"accessCode\""@,
            p4@ == "\"linkcode\""@,
            link_code_member_from(b@, 0) == link_code_member_from(b@, i as int),
        decreases b.len() - i,
    {
        let n = code_name_len_exec(b, i, &p1, &p2, &p3, &p4);
        if n > 0 {
            assert(i + n <= b@.len()) by {
                reveal_strlit("\"linkCode\"");
                reveal_strlit("\"privateServerLinkCode\"");
                reveal_strlit("\"accessCode\"");
                reveal_strlit("\"linkcode\"");
                assert("\"linkCode\""@.len() == 10);
                assert("\"privateServerLinkCode\""@.len() == 23);
                assert("\"accessCode\""@.len() == 12);
                assert("\"linkcode\""@.len() == 10);
            }
            let a = space_run_end(b, i + n);
            if a < b.len() && b[a] == ':' {
                let c = space_run_end(b, a + 1);
                if c < b.len() && b[c] == '"' {
                    let e = code_run_end(b, c + 1);
                    if e > c + 1 && e < b.len() && b[e] == '"' {
                        return Some(string_of_range(b, c + 1, e));
                    }
                }
            }
        }
        i = i + 1;
    }
    None
}

/// Reads the place id and link code out of a share-link resolution reply.
pub fn extract_place_link(body: &str) -> (r: Option<(String, String)>)
    ensures
        r matches Some(p) ==> place_link_spec(body@) == Some((p.0@, p.1@)),
        r is None ==> place_link_spec(body@) is None,
{
    let b = chars_of(body);
    match place_id_member(&b) {
        None => None,
        Some(p) => match link_code_member(&b) {
            None => None,
            Some(c) => Some((p, c)),
        },
    }
}

/// The private-server access code of a share resolution reply:
/// `privateServerInviteData`, or `resolvedShareData.privateServerInviteData`,
/// or `experienceInviteData.privateServerInviteData`, whichever is found
/// first, and its `accessCode` string.
pub open spec fn access_code_reply_spec(d: Json) -> Option<Seq<char>> {
    let invite = match json_get(d, "privateServerInviteData"@) {
        Some(v) => Some(v),
        None => match json_at(json_get(d, "resolvedShareData"@), "privateServerInviteData"@) {
            Some(v) => Some(v),
            None => json_at(json_get(d, "experienceInviteData"@), "privateServerInviteData"@),
        },
    };
    json_str(json_at(invite, "accessCode"@))
}

pub fn access_code_from_reply(d: &Json) -> (r: Option<String>)
    ensures
        r matches Some(s) ==> access_code_reply_spec(*d) == Some(s@),
        r is None ==> access_code_reply_spec(*d) is None,
{
    proof {
        reveal_strlit("privateServerInviteData");
        reveal_strlit("resolvedShareData");
        reveal_strlit("experienceInviteData");
        reveal_strlit("accessCode");
    }
    let invite = match d.get("privateServerInviteData") {
        Some(v) => Some(v),
        None => {
            let a = match d.get("resolvedShareData") {
                Some(r) => r.get("privateServerInviteData"),
                None => None,
            };
            match a {
                Some(v) => Some(v),
                None => match d.get("experienceInviteData") {
                    Some(e) => e.get("privateServerInviteData"),
                    None => None,
                },
            }
        },
    };
    match invite {
        Some(v) => get_str(v, "accessCode"),
        None => None,
    }
}

/// The access code in a redirect location: what follows the first
/// `?accessCode=` or `&accessCode=` up to the next `&` (at least one
/// character).
pub open spec fn access_code_location_from(l: Seq<char>, i: int) -> Option<Seq<char>>
    decreases l.len() - i,
{
    if i < 0 || i >= l.len() {
        None
    } else if (l[i] == '?' || l[i] == '&') && occurs_at(l, i + 1, "accessCode="@) && run_until(l, i + 12, '&') > 0 {
        Some(l.subrange(i + 12, i + 12 + run_until(l, i + 12, '&')))
    } else {
        access_code_location_from(l, i + 1)
    }
}

pub fn access_code_from_location(location: &str) -> (r: Option<String>)
    ensures
        r matches Some(s) ==> access_code_location_from(location@, 0) == Some(s@),
        r is None ==> access_code_location_from(location@, 0) is None,
{
    let l = chars_of(location);
    let pat = chars_of("accessCode=");
    proof {
        reveal_strlit("accessCode=");
    }
    let mut i: usize = 0;
    while i < l.len()
        invariant
            i <= l.len(),
            l@ == location@,
            pat@ == "accessCode="@,
            pat@.len() == 11,
            access_code_location_from(l@, 0) == access_code_location_from(l@, i as int),
        decreases l.len() - i,
    {
        if (l[i] == '?' || l[i] == '&') && occurs_at_exec(&l, i + 1, &pat) {
            let e = run_until_end(&l, i + 12, '&');
            if e > i + 12 {
                return Some(string_of_range(&l, i + 12, e));
            }
        }
        i = i + 1;
    }
    None
}

// ---------------------------------------------------------------------------
// request bodies
// ---------------------------------------------------------------------------

pub open spec fn hex_lower(d: u32) -> char {
    if d < 10 {
        ((d + 48) as u32) as char
    } else {
        ((d + 87) as u32) as char
    }
}

/// How a JSON writer escapes one character inside a string.
pub open spec fn json_escape_char(c: char) -> Seq<char> {
    let u = c as u32;
    if c == '"' {
        seq!['\\', '"']
    } else if c == '\\' {
        seq!['\\', '\\']
    } else if u == 8 {
        seq!['\\', 'b']
    } else if u == 12 {
        seq!['\\', 'f']
    } else if u == 10 {
        seq!['\\', 'n']
    } else if u == 13 {
        seq!['\\', 'r']
    } else if u == 9 {
        seq!['\\', 't']
    } else if u < 32 {
        seq!['\\', 'u', '0', '0', hex_lower(u / 16), hex_lower(u % 16)]
    } else {
        seq![c]
    }
}

pub open spec fn json_escape(s: Seq<char>) -> Seq<char>
    decreases s.len(),
{
    if s.len() == 0 {
        Seq::<char>::empty()
    } else {
        json_escape(s.drop_last()) + json_escape_char(s.last())
    }
}

/// `s` as a JSON string literal.
pub open spec fn json_quoted(s: Seq<char>) -> Seq<char> {
    seq!['"'] + json_escape(s) + seq!['"']
}

/// Calls `serde_json::to_string` on a string. Trusted: the literal is the
/// text in double quotes with `"` and `\` backslash-escaped, `\b` `\f` `\n`
/// `\r` `\t` for those controls, `\u00xx` (lower-case hex) for the other
/// controls below 0x20, and every other character kept.
#[verifier::external_body]
fn json_string_literal(s: &str) -> (r: String)
    ensures
        r@ == json_quoted(s@),
{
    serde_json::to_string(s).unwrap_or_default()
}

/// The two resolution payloads tried for a share code, in order:
/// `{"linkId":…,"linkType":"Server"}` and `{"code":…,"type":"Server"}`.
pub fn share_link_payloads(share_code: &str) -> (r: (String, String))
    ensures
        r.0@ == "{\"linkId\":"@ + json_quoted(share_code@) + ",\"linkType\":\"Server\"}"@,
        r.1@ == "{\"code\":"@ + json_quoted(share_code@) + ",\"type\":\"Server\"}"@,
{
    let q = json_string_literal(share_code);
    (concat3("{\"linkId\":", q.as_str(), ",\"linkType\":\"Server\"}"), concat3("{\"code\":", q.as_str(), ",\"type\":\"Server\"}"))
}

/// The body asking for a private server's access code:
/// `{"shareCode":…,"shareType":"Server"}`.
pub fn access_code_request_body(link_code: &str) -> (r: String)
    ensures
        r@ == "{\"shareCode\":"@ + json_quoted(link_code@) + ",\"shareType\":\"Server\"}"@,
{
    let q = json_string_literal(link_code);
    concat3("{\"shareCode\":", q.as_str(), ",\"shareType\":\"Server\"}")
}

/// The number of accounts an account-generator request may ask for: 1 to 100.
pub fn altgen_quantity(quantity: i64) -> (r: i64)
    ensures
        r == altgen_quantity_spec(quantity),
{
    if quantity < 1 {
        1
    } else if quantity > 100 {
        100
    } else {
        quantity
    }
}

/// The account-generator request body: `{"quantity":N,"type":"ROBLOX_NORMAL"}`
/// with the quantity clamped to 1..=100.
pub fn altgen_request_body(quantity: i64) -> (r: String)
    ensures
        r@ == "{\"quantity\":"@ + signed_decimal(altgen_quantity_spec(quantity) as int)
            + ",\"type\":\"ROBLOX_NORMAL\"}"@,
{
    let q = altgen_quantity(quantity);
    let t = i64_text(q);
    concat3("{\"quantity\":", t.as_str(), ",\"type\":\"ROBLOX_NORMAL\"}")
}

pub open spec fn altgen_quantity_spec(quantity: i64) -> i64 {
    if quantity < 1 {
        1i64
    } else if quantity > 100 {
        100i64
    } else {
        quantity
    }
}

// ---------------------------------------------------------------------------
// authentication tickets
// ---------------------------------------------------------------------------

/// Seconds to wait after a 429: the `retry-after` header when it is an
/// unsigned number, else 8.
/// The `retry-after` header as seconds: an unsigned number that fits `u64`,
/// else 8.
pub open spec fn retry_after_spec(header: Option<Seq<char>>) -> u64 {
    match header {
        Some(h) => match parse_unsigned(h) {
            Some(v) => if v <= u64::MAX {
                v as u64
            } else {
                8u64
            },
            None => 8u64,
        },
        None => 8u64,
    }
}

pub fn retry_after_secs(header: Option<&str>) -> (r: u64)
    ensures
        r == retry_after_spec(match header {
            Some(h) => Some(h@),
            None => None,
        }),
{
    match header {
        Some(h) => {
            let v = chars_of(h);
            match parse_unsigned_bounded(&v, u64::MAX) {
                Some(n) => n,
                None => 8,
            }
        },
        None => 8,
    }
}

/// Pause before each of the three ticket attempts (ms).
pub fn ticket_attempt_delay(attempt: usize) -> (r: u64)
    requires
        attempt < 3,
    ensures
        r == if attempt == 0 {
            0u64
        } else if attempt == 1 {
            2000u64
        } else {
            5000u64
        },
{
    if attempt == 0 {
        0
    } else if attempt == 1 {
        2000
    } else {
        5000
    }
}

/// A ticket obtained.
pub fn ticket_ok(ticket: &str) -> (r: TicketResult)
    ensures
        r.ok,
        r.ticket matches Some(t) && t@ == ticket@,
        r.error is None,
{
    TicketResult { ok: true, ticket: Some(owned(ticket)), error: None }
}

/// No ticket: the failure message for a refresh that failed after a 429 or
/// a 403, or, after three attempts, for the last status seen (0 when no
/// request got a reply).
pub open spec fn ticket_failure_spec(after_429: bool, after_403: bool, last_status: u16) -> Seq<char> {
    if after_429 {
        AUTH_RATE_LIMITED@
    } else if after_403 {
        AUTH_FORBIDDEN@
    } else if last_status != 0 {
        "Auth ticket request failed (HTTP "@ + decimal(last_status as nat)
            + ") after 3 attempts. Try again in a moment."@
    } else {
        AUTH_STILL_LIMITED@
    }
}

pub fn ticket_failure(after_429: bool, after_403: bool, last_status: u16) -> (r: TicketResult)
    ensures
        !r.ok,
        r.ticket is None,
        r.error matches Some(e) && e@ == ticket_failure_spec(after_429, after_403, last_status),
{
    let msg = if after_429 {
        owned(AUTH_RATE_LIMITED)
    } else if after_403 {
        owned(AUTH_FORBIDDEN)
    } else if last_status != 0 {
        let t = u64_text(last_status as u64);
        concat3("Auth ticket request failed (HTTP ", t.as_str(), ") after 3 attempts. Try again in a moment.")
    } else {
        owned(AUTH_STILL_LIMITED)
    };
    TicketResult { ok: false, ticket: None, error: Some(msg) }
}

// ---------------------------------------------------------------------------
// game names
// ---------------------------------------------------------------------------

/// The place-details endpoint for a place.
pub fn place_details_url(place_id: &str) -> (r: String)
    ensures
        r@ == "https://games.roblox.com/v1/games/multiget-place-details?placeIds="@ + place_id@,
{
    concat2("https://games.roblox.com/v1/games/multiget-place-details?placeIds=", place_id)
}

/// The endpoint that gives the universe of a place.
pub fn place_universe_url(place_id: &str) -> (r: String)
    ensures
        r@ == "https://apis.roblox.com/universes/v1/places/"@ + place_id@ + "/universe"@,
{
    concat3("https://apis.roblox.com/universes/v1/places/", place_id, "/universe")
}

/// The games endpoint for a universe, given the universe id as JSON text.
pub fn universe_games_url(universe_id_text: &str) -> (r: String)
    ensures
        r@ == "https://games.roblox.com/v1/games?universeIds="@ + universe_id_text@,
{
    concat2("https://games.roblox.com/v1/games?universeIds=", universe_id_text)
}

/// The game name in a place-details reply: the first entry's `name`.
pub open spec fn details_name_spec(d: Json) -> Option<Seq<char>> {
    json_str(json_at(json_first(Some(d)), "name"@))
}

pub fn game_name_from_details(d: &Json) -> (r: Option<String>)
    ensures
        r matches Some(n) ==> details_name_spec(*d) == Some(n@),
        r is None ==> details_name_spec(*d) is None,
{
    proof {
        reveal_strlit("name");
    }
    match d.first() {
        Some(f) => get_str(f, "name"),
        None => None,
    }
}

/// The game name in a games reply: the first entry of `data`, its `name`.
pub open spec fn games_name_spec(g: Json) -> Option<Seq<char>> {
    json_str(json_at(json_first(json_get(g, "data"@)), "name"@))
}

pub fn game_name_from_games(g: &Json) -> (r: Option<String>)
    ensures
        r matches Some(n) ==> games_name_spec(*g) == Some(n@),
        r is None ==> games_name_spec(*g) is None,
{
    proof {
        reveal_strlit("name");
        reveal_strlit("data");
    }
    match g.get("data") {
        Some(a) => match a.first() {
            Some(f) => get_str(f, "name"),
            None => None,
        },
        None => None,
    }
}

/// Where a short link leads: the redirect's `location`, else the link
/// itself.
pub fn redirect_target(location: Option<&str>, url: &str) -> (r: String)
    ensures
        r@ == match location {
            Some(l) => l@,
            None => url@,
        },
{
    match location {
        Some(l) => owned(l),
        None => owned(url),
    }
}

// ---------------------------------------------------------------------------
// share-link resolution
// ---------------------------------------------------------------------------

/// How many resolution payloads there are: `{"linkId",…}`, then `{"code",…}`
/// (see `share_link_payloads`).
pub const SHARE_PAYLOADS: usize = 2;

/// Where a share-link resolution stands: which payload is being tried,
/// whether it was already sent again with a fresh CSRF token, the token in
/// use, and how many requests went out.
pub struct ShareRun {
    pub payload: usize,
    pub retried: bool,
    pub csrf: String,
    pub sent: u32,
}

/// What the resolution loop does next.
pub enum ShareAction {
    /// Send payload number `.0` (0: `linkId`, 1: `code`) with CSRF token `.1`.
    Send(usize, String),
    /// Resolution ended with this result.
    Done(ShareLinkResult),
}

/// A run the loop can be in: a payload in range, at least one request out,
/// and no more requests than the payloads and retries so far allow
/// (two per payload).
pub open spec fn share_run_wf(run: ShareRun) -> bool {
    &&& run.payload < SHARE_PAYLOADS
    &&& 1 <= run.sent
    &&& run.sent <= 2 * run.payload + (if run.retried { 1int } else { 0int }) + 1
}

/// `res` is the result for `found`: the place id and link code, or the
/// generic failure.
pub open spec fn share_result_is(res: ShareLinkResult, found: Option<(Seq<char>, Seq<char>)>) -> bool {
    match found {
        Some(f) => res.ok && (res.place_id matches Some(p) && p@ == f.0) && (res.link_code matches Some(
            c,
        ) && c@ == f.1) && res.error is None,
        None => !res.ok && res.place_id is None && res.link_code is None && (res.error matches Some(e) && e@
            == crate::launch::SHARE_LINK_FAILED@),
    }
}

/// `r` goes on with the same token to the next payload, or ends in failure
/// after the last one.
pub open spec fn share_advance(run: ShareRun, r: (ShareRun, ShareAction)) -> bool {
    if run.payload + 1 < SHARE_PAYLOADS {
        &&& r.0.payload == run.payload + 1
        &&& !r.0.retried
        &&& r.0.csrf@ == run.csrf@
        &&& r.0.sent == run.sent + 1
        &&& r.1 matches ShareAction::Send(i, t) && i == run.payload + 1 && t@ == run.csrf@
    } else {
        r.1 matches ShareAction::Done(res) && share_result_is(res, None)
    }
}

/// The step after a reply (`status`, `body`, and the reply's fresh CSRF
/// token if it carried one): a 200 reply naming a place and link code ends
/// the loop; a 403 with a fresh token, when this payload was not yet sent
/// again, sends it again with that token (kept from then on); anything else
/// moves to the next payload, or ends in failure after the last.
pub open spec fn is_share_step(
    run: ShareRun,
    status: u16,
    body: Seq<char>,
    fresh: Option<Seq<char>>,
    r: (ShareRun, ShareAction),
) -> bool {
    if status == 200 && place_link_spec(body) is Some {
        r.1 matches ShareAction::Done(res) && share_result_is(res, place_link_spec(body))
    } else if !run.retried && status == 403 && fresh is Some {
        &&& r.0.payload == run.payload
        &&& r.0.retried
        &&& r.0.csrf@ == fresh.unwrap()
        &&& r.0.sent == run.sent + 1
        &&& r.1 matches ShareAction::Send(i, t) && i == run.payload && t@ == fresh.unwrap()
    } else {
        share_advance(run, r)
    }
}

/// The first step: send the `linkId` payload with the given token (empty
/// when there is none).
pub fn share_start(csrf: Option<&str>) -> (r: (ShareRun, ShareAction))
    ensures
        share_run_wf(r.0),
        r.0.payload == 0,
        !r.0.retried,
        r.0.sent == 1,
        r.0.csrf@ == (match csrf {
            Some(t) => t@,
            None => Seq::<char>::empty(),
        }),
        r.1 matches ShareAction::Send(i, t) && i == 0 && t@ == r.0.csrf@,
{
    let token = match csrf {
        Some(t) => owned(t),
        None => String::new(),
    };
    let sent_token = token.clone();
    (ShareRun { payload: 0, retried: false, csrf: token, sent: 1 }, ShareAction::Send(0, sent_token))
}

fn share_give_up_or_next(run: ShareRun) -> (r: (ShareRun, ShareAction))
    requires
        share_run_wf(run),
    ensures
        share_advance(run, r),
{
    if run.payload + 1 < SHARE_PAYLOADS {
        let t = run.csrf.clone();
        let next = ShareRun { payload: run.payload + 1, retried: false, csrf: run.csrf, sent: run.sent + 1 };
        (next, ShareAction::Send(run.payload + 1, t))
    } else {
        let res = share_link_result(None);
        (run, ShareAction::Done(res))
    }
}

/// Decides after one resolution reply (see `is_share_step`).
pub fn share_on_reply(run: ShareRun, status: u16, body: &str, fresh: Option<&str>) -> (r: (ShareRun, ShareAction))
    requires
        share_run_wf(run),
    ensures
        is_share_step(
            run,
            status,
            body@,
            match fresh {
                Some(t) => Some(t@),
                None => None,
            },
            r,
        ),
{
    if status == 200 {
        match extract_place_link(body) {
            Some(found) => {
                let res = share_link_result(Some(found));
                return (run, ShareAction::Done(res));
            },
            None => {},
        }
    }
    if !run.retried && status == 403 {
        match fresh {
            Some(t) => {
                let next = ShareRun { payload: run.payload, retried: true, csrf: owned(t), sent: run.sent + 1 };
                return (next, ShareAction::Send(run.payload, owned(t)));
            },
            None => {},
        }
    }
    share_give_up_or_next(run)
}

/// The resolution loop sends at most four requests, `linkId` payload first:
/// the first step sends payload 0, and every step that sends again keeps the
/// run well formed (so at most four requests are out), counts one more
/// request, and never goes back to an earlier payload.
pub proof fn law_share_requests_bounded(
    run: ShareRun,
    status: u16,
    body: Seq<char>,
    fresh: Option<Seq<char>>,
    r: (ShareRun, ShareAction),
)
    requires
        share_run_wf(run),
        is_share_step(run, status, body, fresh, r),
    ensures
        share_run_wf(run) ==> run.sent <= 4,
        r.1 is Send ==> share_run_wf(r.0) && r.0.sent == run.sent + 1 && r.0.sent <= 4,
        r.1 matches ShareAction::Send(i, _) ==> i == r.0.payload && run.payload <= i,
{
}

/// The share-link result once resolution ended: the found place and code,
/// or the generic failure.
pub fn share_link_result(found: Option<(String, String)>) -> (r: ShareLinkResult)
    ensures
        found matches Some(f) ==> r.ok && r.place_id == Some(f.0) && r.link_code == Some(f.1) && r.error is None,
        found is None ==> !r.ok && r.place_id is None && r.link_code is None && (r.error matches Some(e) && e@
            == crate::launch::SHARE_LINK_FAILED@),
{
    match found {
        Some((p, c)) => ShareLinkResult { ok: true, place_id: Some(p), link_code: Some(c), error: None },
        None => ShareLinkResult {
            ok: false,
            place_id: None,
            link_code: None,
            error: Some(owned(crate::launch::SHARE_LINK_FAILED)),
        },
    }
}

// ---------------------------------------------------------------------------
// the ticket request loop
// ---------------------------------------------------------------------------

/// How many times a ticket is asked for.
pub const TICKET_ATTEMPTS: usize = 3;

/// Where a ticket request stands: the attempt under way and the last HTTP
/// status seen (0 before any reply).
pub struct TicketRun {
    pub attempt: usize,
    pub last_status: u16,
}

/// What the ticket request loop does next.
pub enum TicketAction {
    /// Wait this long (ms), then send the request for `attempt`.
    Send(u64),
    /// Drop the cached CSRF token, wait this long (s), then fetch a fresh one.
    RefreshAfter(u64),
    /// Drop the cached CSRF token and fetch a fresh one.
    Refresh,
    /// Finished.
    Done(TicketResult),
}

/// The first step: send the first request at once.
pub fn ticket_start() -> (r: (TicketRun, TicketAction))
    ensures
        r.0.attempt == 0 && r.0.last_status == 0,
        r.1 matches TicketAction::Send(d) && d == 0,
{
    (TicketRun { attempt: 0, last_status: 0 }, TicketAction::Send(0))
}

/// The step after an attempt that got no ticket: the next attempt after its
/// pause, or, after the last one, the failure for the last status seen.
pub open spec fn is_next_step(attempt: usize, last_status: u16, r: (TicketRun, TicketAction)) -> bool {
    if attempt + 1 < TICKET_ATTEMPTS {
        &&& r.0 == TicketRun { attempt: (attempt + 1) as usize, last_status }
        &&& r.1 == TicketAction::Send(if attempt + 1 == 1 {
            2000u64
        } else {
            5000u64
        })
    } else {
        &&& r.0 == TicketRun { attempt, last_status }
        &&& r.1 matches TicketAction::Done(t)
        &&& !t.ok
        &&& t.ticket is None
        &&& t.error matches Some(e)
        &&& e@ == ticket_failure_spec(false, false, last_status)
    }
}

fn ticket_next(attempt: usize, last_status: u16) -> (r: (TicketRun, TicketAction))
    requires
        attempt < TICKET_ATTEMPTS,
    ensures
        is_next_step(attempt, last_status, r),
{
    if attempt + 1 < TICKET_ATTEMPTS {
        let d = ticket_attempt_delay(attempt + 1);
        (TicketRun { attempt: attempt + 1, last_status }, TicketAction::Send(d))
    } else {
        (TicketRun { attempt, last_status }, TicketAction::Done(ticket_failure(false, false, last_status)))
    }
}

/// The step after a ticket request (see `ticket_on_reply`).
pub open spec fn is_reply_step(
    run: TicketRun,
    status: Option<u16>,
    ticket: Option<String>,
    retry_after: Option<Seq<char>>,
    r: (TicketRun, TicketAction),
) -> bool {
    match status {
        None => is_next_step(run.attempt, run.last_status, r),
        Some(s) => match ticket {
            Some(t) => {
                &&& r.0 == TicketRun { attempt: run.attempt, last_status: s }
                &&& r.1 matches TicketAction::Done(d)
                &&& d.ok
                &&& d.ticket == Some(t)
                &&& d.error is None
            },
            None => if s == 429 {
                &&& r.0 == TicketRun { attempt: run.attempt, last_status: 429 }
                &&& r.1 == TicketAction::RefreshAfter(retry_after_spec(retry_after))
            } else if s == 403 {
                &&& r.0 == TicketRun { attempt: run.attempt, last_status: 403 }
                &&& r.1 is Refresh
            } else {
                is_next_step(run.attempt, s, r)
            },
        },
    }
}

/// Decides after a ticket request: `status` is `None` when the request got
/// no reply, `ticket` is the ticket header of the reply and `retry_after` its
/// `retry-after` header. A ticket ends the loop whatever the status; a 429
/// asks for a fresh CSRF token after the server's delay, a 403 for one at
/// once; anything else moves on to the next attempt.
pub fn ticket_on_reply(run: TicketRun, status: Option<u16>, ticket: Option<String>, retry_after: Option<&str>) -> (r: (TicketRun, TicketAction))
    requires
        run.attempt < TICKET_ATTEMPTS,
    ensures
        is_reply_step(
            run,
            status,
            ticket,
            match retry_after {
                Some(h) => Some(h@),
                None => None,
            },
            r,
        ),
{
    match status {
        None => ticket_next(run.attempt, run.last_status),
        Some(s) => {
            match ticket {
                Some(t) => {
                    return (TicketRun { attempt: run.attempt, last_status: s }, TicketAction::Done(TicketResult { ok: true, ticket: Some(t), error: None }));
                },
                None => {},
            }
            if s == 429 {
                (TicketRun { attempt: run.attempt, last_status: 429 }, TicketAction::RefreshAfter(retry_after_secs(retry_after)))
            } else if s == 403 {
                (TicketRun { attempt: run.attempt, last_status: 403 }, TicketAction::Refresh)
            } else {
                ticket_next(run.attempt, s)
            }
        },
    }
}


/// The step after fetching a fresh CSRF token (see `ticket_on_refresh`).
pub open spec fn is_refresh_step(run: TicketRun, after_429: bool, got_token: bool, r: (TicketRun, TicketAction)) -> bool {
    if got_token {
        is_next_step(run.attempt, run.last_status, r)
    } else {
        &&& r.0 == run
        &&& r.1 matches TicketAction::Done(t)
        &&& !t.ok
        &&& t.ticket is None
        &&& t.error matches Some(e)
        &&& e@ == ticket_failure_spec(after_429, !after_429, run.last_status)
    }
}

/// Decides after fetching a fresh CSRF token (`after_429` tells which status
/// asked for it): without one the loop ends with that status's failure;
/// with one it moves on to the next attempt.
pub fn ticket_on_refresh(run: TicketRun, after_429: bool, got_token: bool) -> (r: (TicketRun, TicketAction))
    requires
        run.attempt < TICKET_ATTEMPTS,
    ensures
        is_refresh_step(run, after_429, got_token, r),
{
    if !got_token {
        let t = ticket_failure(after_429, !after_429, run.last_status);
        (TicketRun { attempt: run.attempt, last_status: run.last_status }, TicketAction::Done(t))
    } else {
        ticket_next(run.attempt, run.last_status)
    }
}

/// The ticket loop sends at most three requests: each step keeps the attempt
/// below three, and only a step that sends again moves to the next attempt.
pub proof fn law_ticket_attempts_bounded(
    run: TicketRun,
    status: Option<u16>,
    ticket: Option<String>,
    retry_after: Option<Seq<char>>,
    after_429: bool,
    got_token: bool,
    r: (TicketRun, TicketAction),
)
    requires
        run.attempt < TICKET_ATTEMPTS,
        is_reply_step(run, status, ticket, retry_after, r) || is_refresh_step(run, after_429, got_token, r),
    ensures
        r.0.attempt < TICKET_ATTEMPTS,
        r.1 is Send ==> r.0.attempt == run.attempt + 1,
        !(r.1 is Send) ==> r.0.attempt == run.attempt,
{
}

/// The private server's page, whose redirect carries the access code.
pub fn private_server_page_url(place_id: &str, link_code: &str) -> (r: String)
    ensures
        r@ == "https://www.roblox.com/games/"@ + place_id@ + "?privateServerLinkCode="@ + link_code@,
{
    let mut r = concat3("https://www.roblox.com/games/", place_id, "?privateServerLinkCode=");
    push_str(&mut r, link_code);
    r
}

} // verus!
