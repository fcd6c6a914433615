use multiroblox::json::{Json, JsonNumber};
use multiroblox::roblox_api::{
    access_code_from_location, access_code_from_reply, access_code_request_body, altgen_request_body,
    client_version, extract_place_id, extract_place_link, extract_roblox_error, game_name_from_details, roblox_error_from,
    user_info_from_body,
    game_name_from_games, place_details_url, place_universe_url, private_server_page_url, redirect_target,
    retry_after_secs, share_link_payloads, share_link_result, share_on_reply, share_start,
    ticket_attempt_delay, ticket_failure, ticket_on_refresh, ticket_on_reply, ticket_start, universe_games_url,
    user_info_failed, user_info_from_reply, ShareAction, TicketAction, TicketRun, AUTH_FORBIDDEN,
    AUTH_RATE_LIMITED, AUTH_STILL_LIMITED, VERSION_MISSING,
};

fn s(t: &str) -> Json {
    Json::Str(t.to_string())
}

fn obj(pairs: Vec<(&str, Json)>) -> Json {
    Json::Object(pairs.into_iter().map(|(k, v)| (k.to_string(), v)).collect())
}

fn serde_text(pairs: Vec<(&str, &str)>) -> String {
    let mut m = serde_json::Map::new();
    for (k, v) in pairs {
        m.insert(k.to_string(), serde_json::Value::String(v.to_string()));
    }
    serde_json::Value::Object(m).to_string()
}

#[test]
fn error_message_prefers_errors_array() {
    let body = "{\"errors\":[{\"code\":0,\"message\":\"Unauthorized\"}]}";
    let parsed = obj(vec![("errors", Json::Array(vec![obj(vec![("message", s("Unauthorized"))])]))]);
    assert_eq!(roblox_error_from(body, Some(&parsed)), "Unauthorized");
    let flat = obj(vec![("message", s("Too many"))]);
    assert_eq!(roblox_error_from("{}", Some(&flat)), "Too many");
    let long = "x".repeat(250);
    assert_eq!(roblox_error_from(&long, None), "x".repeat(200));
    assert_eq!(roblox_error_from("short", Some(&obj(vec![]))), "short");
}

#[test]
fn error_text_from_reply_bodies() {
    assert_eq!(extract_roblox_error(r#"{"errors":[{"code":0,"message":"Unauthorized"}]}"#), "Unauthorized");
    assert_eq!(extract_roblox_error(r#"{"message":"Too many requests"}"#), "Too many requests");
    assert_eq!(extract_roblox_error(r#"{"errors":[],"message":"flat"}"#), "flat");
    assert_eq!(extract_roblox_error(r#"{"errors":[{"code":1}]}"#), r#"{"errors":[{"code":1}]}"#);
    assert_eq!(extract_roblox_error("<html>Bad gateway</html>"), "<html>Bad gateway</html>");
    let long = "é".repeat(300);
    assert_eq!(extract_roblox_error(&long), "é".repeat(200));
    assert_eq!(extract_roblox_error(""), "");
}

#[test]
fn user_info_from_reply_bodies() {
    let u = user_info_from_body(r#"{"id":123,"name":"bob","displayName":"Bob"}"#);
    assert!(u.ok);
    assert_eq!(u.user_id.as_deref(), Some("123"));
    assert_eq!(u.username.as_deref(), Some("bob"));
    let big = user_info_from_body(r#"{"id":18446744073709551615}"#);
    assert_eq!(big.user_id.as_deref(), Some("18446744073709551615"));
    let bad = user_info_from_body(r#"{"errors":[{"code":0,"message":"Unauthorized"}]}"#);
    assert!(!bad.ok);
    assert_eq!(bad.reason.as_deref(), Some("Unauthorized"));
    let junk = user_info_from_body("not json");
    assert!(!junk.ok);
    assert_eq!(junk.reason.as_deref(), Some("not json"));
}

#[test]
fn user_info_reads_id_and_name() {
    let d = obj(vec![("id", Json::Number(JsonNumber::PosInt(123))), ("name", s("bob"))]);
    let u = user_info_from_reply("", Some(&d));
    assert!(u.ok);
    assert_eq!(u.user_id.as_deref(), Some("123"));
    assert_eq!(u.username.as_deref(), Some("bob"));
    let d2 = obj(vec![("id", s("77"))]);
    let u2 = user_info_from_reply("", Some(&d2));
    assert!(u2.ok);
    assert_eq!(u2.user_id.as_deref(), Some("77"));
    assert_eq!(u2.username, None);
    let d3 = obj(vec![("id", Json::Number(JsonNumber::NegInt(-4)))]);
    assert_eq!(user_info_from_reply("", Some(&d3)).user_id.as_deref(), Some("-4"));
    let bad = user_info_from_reply("nope", None);
    assert!(!bad.ok);
    assert_eq!(bad.reason.as_deref(), Some("nope"));
    let failed = user_info_failed("timeout");
    assert!(!failed.ok);
    assert_eq!(failed.reason.as_deref(), Some("timeout"));
}

#[test]
fn client_version_reads_upload_then_version() {
    let a = obj(vec![("version", s("0.1")), ("clientVersionUpload", s("version-abc"))]);
    assert_eq!(client_version(&a), Ok("version-abc".to_string()));
    let b = obj(vec![("version", s("0.2"))]);
    assert_eq!(client_version(&b), Ok("0.2".to_string()));
    let c = obj(vec![("clientVersionUpload", Json::Null), ("version", s("0.3"))]);
    assert_eq!(client_version(&c), Err(VERSION_MISSING.to_string()));
}

#[test]
fn place_ids_from_targets() {
    assert_eq!(extract_place_id(" 12345 "), Some("12345".to_string()));
    assert_eq!(extract_place_id("https://www.roblox.com/games/606849621/Jailbreak"), Some("606849621".to_string()));
    assert_eq!(extract_place_id("roblox.com/games/start?placeId=42"), Some("42".to_string()));
    assert_eq!(extract_place_id("roblox.com/x?placeId=4a&placeId=7"), Some("7".to_string()));
    assert_eq!(extract_place_id("abc"), None);
    assert_eq!(extract_place_id(""), None);
}

#[test]
fn share_reply_fields() {
    let body = "{\"data\":{\"placeId\" : 123,\"linkCode\":\"abc-DEF_1\"}}";
    assert_eq!(extract_place_link(body), Some(("123".to_string(), "abc-DEF_1".to_string())));
    let body2 = "{\"privateServerLinkCode\": \"zz\", \"placeId\":9}";
    assert_eq!(extract_place_link(body2), Some(("9".to_string(), "zz".to_string())));
    assert_eq!(extract_place_link("{\"placeId\":1}"), None);
    assert_eq!(extract_place_link("{\"linkCode\":\"a\"}"), None);
}

#[test]
fn share_reply_fields_agree_with_patterns() {
    let re_pid = regex::Regex::new(r#""placeId"\s*:\s*(\d+)"#).unwrap();
    let re_lc = regex::Regex::new(r#""(?:linkCode|privateServerLinkCode|accessCode|linkcode)"\s*:\s*"([A-Za-z0-9_\-]+)""#).unwrap();
    let samples = [
        "{\"placeId\":\t\n 5, \"accessCode\" :\"Q-1\"}",
        "\"placeId\":\"5\" \"placeId\": 6 \"linkcode\":\"\" \"linkCode\":\"ok\"",
        "\"placeId\": ٣ \"linkCode\":\"a\"",
        "\"placeId\":\u{a0}12\"linkCode\":\"b\"",
        "nothing here",
    ];
    for b in samples {
        let want = match (re_pid.captures(b), re_lc.captures(b)) {
            (Some(p), Some(c)) => Some((p[1].to_string(), c[1].to_string())),
            _ => None,
        };
        assert_eq!(extract_place_link(b), want, "body {:?}", b);
    }
}

#[test]
fn access_codes() {
    let d = obj(vec![("privateServerInviteData", obj(vec![("accessCode", s("A1"))]))]);
    assert_eq!(access_code_from_reply(&d), Some("A1".to_string()));
    let d2 = obj(vec![(
        "resolvedShareData",
        obj(vec![("privateServerInviteData", obj(vec![("accessCode", s("B2"))]))]),
    )]);
    assert_eq!(access_code_from_reply(&d2), Some("B2".to_string()));
    let d3 = obj(vec![(
        "experienceInviteData",
        obj(vec![("privateServerInviteData", obj(vec![("accessCode", s("C3"))]))]),
    )]);
    assert_eq!(access_code_from_reply(&d3), Some("C3".to_string()));
    assert_eq!(access_code_from_reply(&obj(vec![])), None);
    assert_eq!(
        access_code_from_location("https://www.roblox.com/games/1?privateServerLinkCode=x&accessCode=abc-123&foo=1"),
        Some("abc-123".to_string())
    );
    assert_eq!(access_code_from_location("https://x/?accessCode=&accessCode=z"), Some("z".to_string()));
    assert_eq!(access_code_from_location("https://x/accessCode=q"), None);
    assert_eq!(
        private_server_page_url("1", "abc"),
        "https://www.roblox.com/games/1?privateServerLinkCode=abc"
    );
}

#[test]
fn request_bodies_match_json_writer() {
    let code = "we\"ird\\code\n\u{1}é";
    let (a, b) = share_link_payloads(code);
    assert_eq!(a, serde_text(vec![("linkId", code), ("linkType", "Server")]));
    assert_eq!(b, serde_text(vec![("code", code), ("type", "Server")]));
    assert_eq!(access_code_request_body(code), serde_text(vec![("shareCode", code), ("shareType", "Server")]));
    assert_eq!(altgen_request_body(0), "{\"quantity\":1,\"type\":\"ROBLOX_NORMAL\"}");
    assert_eq!(altgen_request_body(500), "{\"quantity\":100,\"type\":\"ROBLOX_NORMAL\"}");
    assert_eq!(altgen_request_body(-5), "{\"quantity\":1,\"type\":\"ROBLOX_NORMAL\"}");
    assert_eq!(altgen_request_body(42), "{\"quantity\":42,\"type\":\"ROBLOX_NORMAL\"}");
}

#[test]
fn ticket_loop_gets_a_ticket() {
    let (run, act) = ticket_start();
    assert_eq!(run.attempt, 0);
    assert!(matches!(act, TicketAction::Send(0)));
    let (_, act) = ticket_on_reply(run, Some(200), Some("TKT".to_string()), None);
    match act {
        TicketAction::Done(t) => {
            assert!(t.ok);
            assert_eq!(t.ticket.as_deref(), Some("TKT"));
        }
        _ => panic!("expected a ticket"),
    }
}

#[test]
fn ticket_loop_retries_then_gives_up() {
    let run = TicketRun { attempt: 0, last_status: 0 };
    let (run, act) = ticket_on_reply(run, Some(500), None, None);
    assert_eq!(run.attempt, 1);
    assert!(matches!(act, TicketAction::Send(2000)));
    let (run, act) = ticket_on_reply(run, None, None, None);
    assert_eq!(run.attempt, 2);
    assert_eq!(run.last_status, 500);
    assert!(matches!(act, TicketAction::Send(5000)));
    let (_, act) = ticket_on_reply(run, Some(502), None, None);
    match act {
        TicketAction::Done(t) => {
            assert!(!t.ok);
            assert_eq!(
                t.error.as_deref(),
                Some("Auth ticket request failed (HTTP 502) after 3 attempts. Try again in a moment.")
            );
        }
        _ => panic!("expected the end"),
    }
    let (_, act) = ticket_on_reply(TicketRun { attempt: 2, last_status: 0 }, None, None, None);
    match act {
        TicketAction::Done(t) => assert_eq!(t.error.as_deref(), Some(AUTH_STILL_LIMITED)),
        _ => panic!("expected the end"),
    }
}

#[test]
fn ticket_loop_refreshes_tokens() {
    let run = TicketRun { attempt: 1, last_status: 0 };
    let (run2, act) = ticket_on_reply(run, Some(429), None, Some("3"));
    assert_eq!(run2.last_status, 429);
    assert!(matches!(act, TicketAction::RefreshAfter(3)));
    let (_, act) = ticket_on_reply(TicketRun { attempt: 0, last_status: 0 }, Some(429), None, Some("soon"));
    assert!(matches!(act, TicketAction::RefreshAfter(8)));
    let (run3, act) = ticket_on_reply(TicketRun { attempt: 0, last_status: 0 }, Some(403), None, None);
    assert!(matches!(act, TicketAction::Refresh));
    let (_, act) = ticket_on_refresh(run3, false, false);
    match act {
        TicketAction::Done(t) => assert_eq!(t.error.as_deref(), Some(AUTH_FORBIDDEN)),
        _ => panic!("expected the end"),
    }
    let (_, act) = ticket_on_refresh(run2, true, false);
    match act {
        TicketAction::Done(t) => assert_eq!(t.error.as_deref(), Some(AUTH_RATE_LIMITED)),
        _ => panic!("expected the end"),
    }
    let (run4, act) = ticket_on_refresh(TicketRun { attempt: 0, last_status: 403 }, false, true);
    assert_eq!(run4.attempt, 1);
    assert!(matches!(act, TicketAction::Send(2000)));
}

#[test]
fn ticket_helpers() {
    assert_eq!(retry_after_secs(Some("+5")), 5);
    assert_eq!(retry_after_secs(Some("-5")), 8);
    assert_eq!(retry_after_secs(Some("18446744073709551616")), 8);
    assert_eq!(retry_after_secs(None), 8);
    assert_eq!(ticket_attempt_delay(0), 0);
    assert_eq!(ticket_attempt_delay(1), 2000);
    assert_eq!(ticket_attempt_delay(2), 5000);
    assert_eq!(ticket_failure(false, true, 403).error.as_deref(), Some(AUTH_FORBIDDEN));
}

#[test]
fn share_resolution_steps() {
    let body = "{\"placeId\":1,\"linkCode\":\"c\"}";
    let ok = share_link_result(Some(("1".to_string(), "c".to_string())));
    assert!(ok.ok);
    let bad = share_link_result(None);
    assert!(!bad.ok);
    assert_eq!(bad.error.as_deref(), Some("Could not resolve share link. It may be expired or invalid."));
}

#[test]
fn game_name_lookups() {
    assert_eq!(
        place_details_url("5"),
        "https://games.roblox.com/v1/games/multiget-place-details?placeIds=5"
    );
    assert_eq!(place_universe_url("5"), "https://apis.roblox.com/universes/v1/places/5/universe");
    assert_eq!(universe_games_url("99"), "https://games.roblox.com/v1/games?universeIds=99");
    let details = Json::Array(vec![obj(vec![("name", s("Obby"))])]);
    assert_eq!(game_name_from_details(&details), Some("Obby".to_string()));
    assert_eq!(game_name_from_details(&Json::Array(vec![])), None);
    let games = obj(vec![("data", Json::Array(vec![obj(vec![("name", s("Tycoon"))])]))]);
    assert_eq!(game_name_from_games(&games), Some("Tycoon".to_string()));
    assert_eq!(game_name_from_games(&obj(vec![])), None);
    assert_eq!(redirect_target(Some("https://a/b"), "https://c"), "https://a/b");
    assert_eq!(redirect_target(None, "https://c"), "https://c");
}

fn sent_payload(a: &ShareAction) -> Option<(usize, String)> {
    match a {
        ShareAction::Send(i, t) => Some((*i, t.clone())),
        ShareAction::Done(_) => None,
    }
}

#[test]
fn share_link_loop_resolves_on_first_reply() {
    let body = r#"{"privateServerInviteData":{"placeId":1,"linkCode":"c"}}"#;
    let (run, first) = share_start(Some("t0"));
    assert_eq!(sent_payload(&first), Some((0, "t0".to_string())));
    let (_, done) = share_on_reply(run, 200, body, None);
    match done {
        ShareAction::Done(r) => {
            assert!(r.ok);
            assert_eq!(r.place_id.as_deref(), Some("1"));
            assert_eq!(r.link_code.as_deref(), Some("c"));
        }
        _ => panic!("expected the loop to end"),
    }
}

#[test]
fn share_link_loop_sends_at_most_four_requests() {
    let (mut run, mut action) = share_start(None);
    let mut sent = Vec::new();
    loop {
        match sent_payload(&action) {
            Some(p) => sent.push(p),
            None => break,
        }
        let (r, a) = share_on_reply(run, 403, "{}", Some("fresh"));
        run = r;
        action = a;
    }
    assert_eq!(
        sent,
        vec![
            (0, "".to_string()),
            (0, "fresh".to_string()),
            (1, "fresh".to_string()),
            (1, "fresh".to_string())
        ]
    );
    match action {
        ShareAction::Done(r) => assert!(!r.ok),
        _ => panic!("expected failure"),
    }
}

#[test]
fn share_link_loop_without_tokens_tries_each_payload_once() {
    let (run, a0) = share_start(Some("t"));
    assert_eq!(sent_payload(&a0), Some((0, "t".to_string())));
    let (run, a1) = share_on_reply(run, 500, "", None);
    assert_eq!(sent_payload(&a1), Some((1, "t".to_string())));
    let (_, a2) = share_on_reply(run, 403, "", None);
    assert_eq!(sent_payload(&a2), None);
}
