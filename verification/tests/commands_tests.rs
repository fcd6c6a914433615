use multiroblox::commands::{
    flags_from_text, list_from_text, settings_from_text,
    accounts_add, accounts_remove, accounts_reorder, accounts_update, add_account, enc_status, fps_read,
    fps_xml_update, frame_rate_flags, key_settings, lost_cookie, mark_used, merge_members, new_passphrase,
    remove_member, set_member, setting_flag, settings_load, settings_save, HelperAction,
};
use multiroblox::json::{Json, JsonNumber};

fn s(t: &str) -> Json {
    Json::Str(t.to_string())
}

fn b(v: bool) -> Json {
    Json::Bool(v)
}

fn fields(pairs: Vec<(&str, Json)>) -> Vec<(String, Json)> {
    pairs.into_iter().map(|(k, v)| (k.to_string(), v)).collect()
}

fn obj(pairs: Vec<(&str, Json)>) -> Json {
    Json::Object(fields(pairs))
}

fn names(f: &[(String, Json)]) -> Vec<String> {
    f.iter().map(|(k, _)| k.clone()).collect()
}

fn str_of(f: &[(String, Json)], key: &str) -> Option<String> {
    f.iter().find(|(k, _)| k == key).and_then(|(_, v)| match v {
        Json::Str(t) => Some(t.clone()),
        _ => None,
    })
}

fn bool_of(f: &[(String, Json)], key: &str) -> Option<bool> {
    f.iter().find(|(k, _)| k == key).and_then(|(_, v)| match v {
        Json::Bool(x) => Some(*x),
        _ => None,
    })
}

fn id_of(a: &Json) -> String {
    match a {
        Json::Object(f) => str_of(f, "id").unwrap_or_default(),
        _ => String::new(),
    }
}

#[test]
fn members_are_set_and_removed() {
    let mut f = fields(vec![("a", s("1")), ("b", s("2"))]);
    set_member(&mut f, "a".to_string(), s("9"));
    set_member(&mut f, "c".to_string(), s("3"));
    assert_eq!(names(&f), vec!["a", "b", "c"]);
    assert_eq!(str_of(&f, "a").as_deref(), Some("9"));
    let f = remove_member(f, "b");
    assert_eq!(names(&f), vec!["a", "c"]);
    let mut g = fields(vec![("x", s("0"))]);
    merge_members(&mut g, fields(vec![("y", s("1")), ("x", s("2"))]));
    assert_eq!(names(&g), vec!["x", "y"]);
    assert_eq!(str_of(&g, "x").as_deref(), Some("2"));
}

#[test]
fn settings_view_hides_key_material() {
    let stored = fields(vec![
        ("theme", s("dark")),
        ("customKey", s("k")),
        ("customKeyEnc", s("e")),
        ("keyVerifier", s("v")),
        ("_deviceKey", s("d")),
        ("keySet", b(false)),
    ]);
    let shown = settings_load(stored, true);
    assert_eq!(names(&shown), vec!["theme", "keySet"]);
    assert_eq!(bool_of(&shown, "keySet"), Some(true));
}

#[test]
fn settings_save_merges_and_decides_helpers() {
    let stored = fields(vec![("webhook", s("w")), ("screenshotsEnabled", b(true)), ("theme", s("dark"))]);
    let submitted = fields(vec![
        ("customKey", s("leak")),
        ("theme", s("light")),
        ("multiInstance", b(true)),
        ("antiAfk", b(false)),
        ("encryptionType", s("passphrase")),
    ]);
    let (saved, change) = settings_save(stored, submitted, true);
    assert_eq!(names(&saved), vec!["theme", "multiInstance", "antiAfk", "encryptionType"]);
    assert_eq!(str_of(&saved, "theme").as_deref(), Some("light"));
    assert!(change.invalidate_key);
    assert!(matches!(change.mutex_holder, HelperAction::Start));
    assert!(matches!(change.antiafk, HelperAction::Stop));

    let (_, c2) = settings_save(vec![], fields(vec![("antiAfkInterval", Json::Number(JsonNumber::PosInt(600)))]), true);
    assert!(!c2.invalidate_key);
    assert!(matches!(c2.mutex_holder, HelperAction::Keep));
    assert!(matches!(c2.antiafk, HelperAction::Restart));
    let (_, c3) = settings_save(vec![], fields(vec![("antiAfkInterval", Json::Number(JsonNumber::PosInt(600)))]), false);
    assert!(matches!(c3.antiafk, HelperAction::Keep));
    let (_, c4) = settings_save(vec![], fields(vec![("antiAfk", s("yes")), ("multiInstance", b(false))]), false);
    assert!(matches!(c4.antiafk, HelperAction::Keep));
    assert!(matches!(c4.mutex_holder, HelperAction::Stop));
}

#[test]
fn flags_and_status() {
    let f = fields(vec![("antiAfk", b(true)), ("multiInstance", s("true"))]);
    assert!(setting_flag(&f, "antiAfk"));
    assert!(!setting_flag(&f, "multiInstance"));
    assert!(!setting_flag(&f, "missing"));
    assert_eq!(enc_status(false, true), "setup");
    assert_eq!(enc_status(true, true), "unlocked");
    assert_eq!(enc_status(true, false), "locked");
    assert_eq!(new_passphrase(Some("  pw  ")), "pw");
    assert_eq!(new_passphrase(None), "");
}

#[test]
fn key_change_settings() {
    let base = fields(vec![("customKey", s("a")), ("customKeyEnc", s("b")), ("keyVerifier", s("old")), ("x", b(true))]);
    let with = key_settings(base, Some("ver".to_string()));
    assert_eq!(names(&with), vec!["keyVerifier", "x", "encSetupDone"]);
    assert_eq!(str_of(&with, "keyVerifier").as_deref(), Some("ver"));
    let base2 = fields(vec![("customKey", s("a")), ("keyVerifier", s("old"))]);
    let without = key_settings(base2, None);
    assert_eq!(names(&without), vec!["encSetupDone"]);
    assert_eq!(bool_of(&without, "encSetupDone"), Some(true));
}

#[test]
fn lost_cookies_are_detected() {
    let stored = vec![obj(vec![("cookie", s("enc:abc"))]), obj(vec![("cookie", s(""))])];
    let good = vec![obj(vec![("cookie", s("plain"))]), obj(vec![])];
    let bad = vec![obj(vec![("cookie", s("plain"))]), obj(vec![]), obj(vec![])];
    let lost = vec![obj(vec![("cookie", s(""))])];
    assert!(!lost_cookie(&stored, &good));
    assert!(!lost_cookie(&stored, &bad));
    assert!(lost_cookie(&stored, &lost));
    assert!(lost_cookie(&stored, &vec![obj(vec![("cookie", Json::Null)])]));
}

#[test]
fn accounts_are_added_with_id_and_times() {
    let mut accounts = vec![obj(vec![("id", s("old"))])];
    let i = add_account(&mut accounts, fields(vec![("username", s("bob"))]), "new-id".to_string(), "2024-01-01T00:00:00+00:00".to_string());
    assert_eq!(i, 1);
    match &accounts[1] {
        Json::Object(f) => {
            assert_eq!(names(f), vec!["username", "id", "createdAt", "lastUsed"]);
            assert_eq!(str_of(f, "id").as_deref(), Some("new-id"));
            assert!(matches!(f[3].1, Json::Null));
        }
        _ => panic!("expected an object"),
    }
    let j = accounts_add(&mut accounts, fields(vec![]));
    assert_eq!(j, 2);
    let id = id_of(&accounts[2]);
    assert_eq!(id.len(), 36);
    assert_eq!(id.chars().nth(14), Some('4'));
    assert!(id.chars().all(|c| c == '-' || c.is_ascii_hexdigit() && !c.is_ascii_uppercase()));
    let created = match &accounts[2] {
        Json::Object(f) => str_of(f, "createdAt").unwrap_or_default(),
        _ => String::new(),
    };
    let shape = regex::Regex::new(r"^\d{4}-\d{2}-\d{2}T\d{2}:\d{2}:\d{2}(\.\d{3}|\.\d{6}|\.\d{9})?\+00:00$").unwrap();
    assert!(shape.is_match(&created), "{created}");
}

#[test]
fn accounts_are_removed_updated_and_stamped() {
    let accounts = vec![obj(vec![("id", s("a"))]), obj(vec![("id", s("b"))]), obj(vec![("id", s("a"))])];
    let left = accounts_remove(accounts, "a");
    assert_eq!(left.iter().map(id_of).collect::<Vec<_>>(), vec!["b"]);

    let mut list = vec![obj(vec![("id", s("a")), ("note", s("x"))]), obj(vec![("id", s("b"))])];
    assert_eq!(accounts_update(&mut list, "b", fields(vec![("note", s("y"))])), Some(1));
    assert_eq!(accounts_update(&mut list, "zz", fields(vec![("note", s("y"))])), None);
    match &list[1] {
        Json::Object(f) => assert_eq!(str_of(f, "note").as_deref(), Some("y")),
        _ => panic!("expected an object"),
    }
    assert_eq!(mark_used(&mut list, "a"), Some(0));
    match &list[0] {
        Json::Object(f) => assert!(str_of(f, "lastUsed").map(|t| !t.is_empty()).unwrap_or(false)),
        _ => panic!("expected an object"),
    }
}

#[test]
fn reorder_puts_requested_first() {
    let accounts = vec![obj(vec![("id", s("a"))]), obj(vec![("id", s("b"))]), obj(vec![("id", s("c"))]), obj(vec![])];
    let ids = vec!["c".to_string(), "zz".to_string(), "a".to_string()];
    assert_eq!(accounts_reorder(&accounts, &ids), vec![2, 0, 1, 3]);
    let ids2 = vec!["b".to_string(), "b".to_string(), "".to_string()];
    assert_eq!(accounts_reorder(&accounts, &ids2), vec![1, 1, 0, 2]);
    let three = vec![obj(vec![("id", s("a"))]), obj(vec![("id", s("b"))]), obj(vec![("id", s("c"))])];
    let plan = accounts_reorder(&three, &vec!["b".to_string()]);
    let mut sorted = plan.clone();
    sorted.sort();
    assert_eq!(sorted, vec![0, 1, 2]);
}

#[test]
fn frame_rate_cap_is_read_and_written() {
    let xml = "<Item class=\"UserGameSettings\">\n\t\t<int name=\"FramerateCap\">144</int>\n</Item>";
    assert_eq!(fps_read(Some(xml)), 144);
    assert_eq!(fps_read(Some("<INT  NAME=\"framerateCAP\" >30</INT>")), 30);
    assert_eq!(fps_read(Some("<int name=\"FramerateCap\">x</int>")), 60);
    assert_eq!(fps_read(None), 60);
    assert_eq!(
        fps_xml_update(xml, 240),
        "<Item class=\"UserGameSettings\">\n\t\t<int name=\"FramerateCap\">240</int>\n</Item>"
    );
    assert_eq!(
        fps_xml_update("<Item>\n</Item>", 0),
        "<Item>\n\t\t<int name=\"FramerateCap\">0</int>\n</Item>"
    );
    assert_eq!(fps_xml_update("<Roblox/>", 60), "<Roblox/>");
}

#[test]
fn frame_rate_cap_agrees_with_patterns() {
    let read = regex::Regex::new(r#"(?i)<int\s+name="FramerateCap"\s*>(\d+)</int>"#).unwrap();
    let write = regex::Regex::new(r#"(?i)<int\s+name="FramerateCap"\s*>\d+</int>"#).unwrap();
    let item = regex::Regex::new(r"</Item>").unwrap();
    let samples = [
        "<int name=\"FramerateCap\">1</int><int name=\"FramerateCap\">2</int>",
        "<int\tname=\"FramerateCap\"\n>99999999999999999999</int>",
        "<intname=\"FramerateCap\">5</int></Item>",
        "<int name=\"FramerateCap\">٣</int>",
        "a</Item>b</Item>",
        "",
    ];
    for x in samples {
        let want_read = read.captures(x).and_then(|c| c[1].parse::<i64>().ok()).unwrap_or(60);
        assert_eq!(fps_read(Some(x)), want_read, "{:?}", x);
        let want_write = if write.is_match(x) {
            write.replace(x, "<int name=\"FramerateCap\">75</int>").to_string()
        } else {
            item.replace(x, "\t\t<int name=\"FramerateCap\">75</int>\n</Item>").to_string()
        };
        assert_eq!(fps_xml_update(x, 75), want_write, "{:?}", x);
    }
}

#[test]
fn frame_rate_flag() {
    let f = frame_rate_flags(fields(vec![("Other", b(true))]), 0);
    assert_eq!(names(&f), vec!["Other", "DFIntTaskSchedulerTargetFps"]);
    assert!(matches!(f[1].1, Json::Number(JsonNumber::PosInt(9999))));
    let g = frame_rate_flags(f, 144);
    assert!(matches!(g[1].1, Json::Number(JsonNumber::PosInt(144))));
}

#[test]
fn written_cap_reads_back() {
    let files = [
        "<Item>\n<INT NAME=\"framerateCAP\"\t>7</INT>\n</Item>",
        "<Item class=\"x\">\n</Item>",
        "<int <int name=\"FramerateCap\">144</int></Item>",
    ];
    for xml in files {
        for cap in [0i64, 1, 60, 240, 9999] {
            assert_eq!(fps_read(Some(&fps_xml_update(xml, cap))), cap, "{:?} {}", xml, cap);
        }
    }
}

#[test]
fn saved_settings_keep_stored_key_material() {
    let stored = fields(vec![("keyVerifier", s("real")), ("theme", s("dark"))]);
    let submitted = fields(vec![("keyVerifier", s("forged")), ("customKey", s("x")), ("theme", s("light"))]);
    let (saved, _) = settings_save(stored, submitted, false);
    assert_eq!(str_of(&saved, "keyVerifier").as_deref(), Some("real"));
    assert_eq!(str_of(&saved, "customKey"), None);
}

#[test]
fn set_member_reads_back() {
    let mut f = fields(vec![("a", s("1")), ("b", s("2"))]);
    set_member(&mut f, "b".to_string(), s("new"));
    assert_eq!(str_of(&f, "b").as_deref(), Some("new"));
    assert_eq!(str_of(&f, "a").as_deref(), Some("1"));
    let mut g: Vec<(String, Json)> = vec![];
    set_member(&mut g, "z".to_string(), b(true));
    assert_eq!(bool_of(&g, "z"), Some(true));
}

#[test]
fn settings_text_is_read_as_a_json_object() {
    let f = settings_from_text(Some(r#"{"zeta":1,"alpha":"a","mid":true}"#));
    assert_eq!(names(&f), vec!["alpha", "mid", "zeta"]);
    assert_eq!(str_of(&f, "alpha").as_deref(), Some("a"));
    assert_eq!(bool_of(&f, "mid"), Some(true));
    assert!(settings_from_text(Some("[1,2]")).is_empty());
    assert!(settings_from_text(Some("{broken")).is_empty());
    assert!(settings_from_text(None).is_empty());
}

#[test]
fn flag_text_keeps_any_json_value() {
    match flags_from_text(Some(r#"{"DFIntTaskSchedulerTargetFps":144}"#)) {
        Json::Object(f) => {
            assert_eq!(names(&f), vec!["DFIntTaskSchedulerTargetFps"]);
            assert!(matches!(f[0].1, Json::Number(JsonNumber::PosInt(144))));
        }
        _ => panic!("expected an object"),
    }
    assert!(matches!(flags_from_text(Some("[true]")), Json::Array(ref a) if a.len() == 1));
    assert!(matches!(flags_from_text(Some("nope")), Json::Object(ref f) if f.is_empty()));
    assert!(matches!(flags_from_text(None), Json::Object(ref f) if f.is_empty()));
}

#[test]
fn list_text_is_read_as_a_json_array() {
    let items = list_from_text(Some(r#"[{"id":"a"},{"id":"b"},3]"#));
    assert_eq!(items.len(), 3);
    assert_eq!(id_of(&items[1]), "b");
    assert!(list_from_text(Some(r#"{"id":"a"}"#)).is_empty());
    assert!(list_from_text(Some("")).is_empty());
    assert!(list_from_text(None).is_empty());
}

#[test]
fn edits_keep_member_names_distinct() {
    let mut f = settings_from_text(Some(r#"{"a":1,"b":2}"#));
    set_member(&mut f, "b".to_string(), s("x"));
    set_member(&mut f, "c".to_string(), s("y"));
    merge_members(&mut f, fields(vec![("a", b(true)), ("d", b(false))]));
    let f = remove_member(f, "c");
    let mut n = names(&f);
    let len = n.len();
    n.sort();
    n.dedup();
    assert_eq!(n.len(), len);
    assert_eq!(names(&f), vec!["a", "b", "d"]);
}
