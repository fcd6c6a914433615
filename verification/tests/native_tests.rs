use multiroblox::json::{Json, JsonNumber};
use multiroblox::native::watch_poll;
use multiroblox::watch::{WatchState, LAUNCH_DELAY_MS, MISS_THRESHOLD};
use multiroblox::native::{
    antiafk_interval, antiafk_line, antiafk_started_message, antiafk_warning, count_roblox_processes,
    crash_log, csc_arguments, display_name, distinct_pids, find_user_id, find_username, helper_error_line,
    kill_all_message, kill_one_log, launch_csrf_failed_log, launch_ticket_error, launch_ticket_failed_log,
    launched_log, pick_latest_version, player_pids, reports_handles_done, reports_mutex_held,
    roblox_still_running, stagger_wait, taskkill_pid_command, tasklist_command, trim_process_memory,
    trim_account_memory, trim_roblox_memory, volume_count, AfkLine, VersionEntry,
};

fn s(t: &str) -> Json {
    Json::Str(t.to_string())
}

fn obj(pairs: Vec<(&str, Json)>) -> Json {
    Json::Object(pairs.into_iter().map(|(k, v)| (k.to_string(), v)).collect())
}

const LISTING: &str = "\"RobloxPlayerBeta.exe\",\"1234\",\"Console\",\"1\",\"500,000 K\"\r\n\"RobloxPlayerBeta.exe\",\"5678\",\"Console\",\"1\",\"400,000 K\"\r\n";

#[test]
fn counts_clients_in_any_case() {
    assert_eq!(count_roblox_processes(LISTING), 2);
    assert_eq!(count_roblox_processes("robloxplayerbeta.EXE and ROBLOXPLAYERBETA.exe"), 2);
    assert_eq!(count_roblox_processes("INFO: No tasks are running which match the specified criteria."), 0);
    assert_eq!(count_roblox_processes(""), 0);
}

#[test]
fn counts_agree_with_pattern() {
    let re = regex::Regex::new(r"(?i)RobloxPlayerBeta\.exe").unwrap();
    let any = regex::Regex::new(r"(?i)RobloxPlayerBeta\.exe|RobloxCrashHandler\.exe").unwrap();
    let samples = [
        LISTING,
        "RobloxPlayerBeta.exeRobloxPlayerBeta.exe",
        "RobloxPlayerBetaXexe",
        "ROBLOXCRAſHHANDLER.EXE",
        "RobloxCrashHandler.exe",
        "robloxcrashhandler.ex",
        "",
    ];
    for t in samples {
        assert_eq!(count_roblox_processes(t) as usize, re.find_iter(t).count(), "{:?}", t);
        assert_eq!(roblox_still_running(t), any.is_match(t), "{:?}", t);
    }
}

#[test]
fn pids_from_listing() {
    assert_eq!(player_pids(LISTING), vec![1234, 5678]);
    let odd = "\"RobloxPlayerBeta.exe\",\"99999999999\" \"RobloxPlayerBeta.exe\",\"٣٤\" \"RobloxPlayerBeta.exe\",\"+7\" \"RobloxPlayerBeta.exe\",\"42\"";
    assert_eq!(player_pids(odd), vec![42]);
    let re = regex::Regex::new(r#""RobloxPlayerBeta\.exe","(\d+)""#).unwrap();
    for t in [LISTING, odd, "\"RobloxPlayerBeta.exe\",\"1\"\"RobloxPlayerBeta.exe\",\"2\"", "x"] {
        let want: Vec<u32> = re.captures_iter(t).filter_map(|c| c[1].parse::<u32>().ok()).collect();
        assert_eq!(player_pids(t), want, "{:?}", t);
    }
}

#[test]
fn trimming_skips_launching_clients() {
    let r = trim_roblox_memory(Some(LISTING), &vec![1234], trim_process_memory);
    assert!(r.ok);
    assert_eq!(r.total, 1);
    assert_eq!(r.trimmed, 0);
    let asked = std::cell::RefCell::new(Vec::new());
    let all = trim_roblox_memory(Some(LISTING), &vec![], |pid: u32| {
        asked.borrow_mut().push(pid);
        pid != 5678
    });
    assert_eq!((all.total, all.trimmed), (2, 1));
    assert_eq!(*asked.borrow(), vec![1234, 5678]);
    let none = trim_roblox_memory(None, &vec![], |_p: u32| true);
    assert!(!none.ok);
    assert_eq!(none.error.as_deref(), Some("tasklist failed"));
    assert!(!trim_process_memory(1234));
}

#[test]
fn trimming_one_account() {
    let r = trim_account_memory(Some(42), |pid: u32| pid == 42);
    assert!(r.ok);
    assert_eq!((r.total, r.trimmed), (1, 1));
    let failed = trim_account_memory(Some(42), trim_process_memory);
    assert_eq!((failed.total, failed.trimmed), (1, 0));
    let idle = trim_account_memory(None, |_p: u32| true);
    assert!(idle.ok);
    assert_eq!((idle.total, idle.trimmed), (0, 0));
}

#[test]
fn distinct_and_volume() {
    assert_eq!(distinct_pids(&vec![3, 1, 3, 2, 1]), vec![3, 1, 2]);
    assert_eq!(volume_count("done SET:3\nSET:5"), 3);
    assert_eq!(volume_count("nothing"), 0);
    assert_eq!(volume_count("SET:99999999999999999999"), 0);
    assert_eq!(volume_count("SET:x SET:12"), 12);
}

#[test]
fn afk_interval_defaults() {
    let n = |v: i64| Json::Number(if v >= 0 { JsonNumber::PosInt(v as u64) } else { JsonNumber::NegInt(v) });
    assert_eq!(antiafk_interval(&obj(vec![("antiAfkInterval", n(30))])), 1140);
    assert_eq!(antiafk_interval(&obj(vec![("antiAfkInterval", n(600))])), 600);
    assert_eq!(antiafk_interval(&obj(vec![("antiAfkInterval", s("600"))])), 1140);
    assert_eq!(antiafk_interval(&obj(vec![])), 1140);
    assert_eq!(antiafk_started_message(1140), "Anti-AFK started (interval: 19 min)");
}

#[test]
fn afk_lines() {
    match antiafk_line("  Tapped 3 windows ") {
        Some(AfkLine::Tapped(m, n)) => {
            assert_eq!(m, "Anti-AFK: tapped 3 Roblox windows");
            assert_eq!(n, 3);
        }
        _ => panic!("expected a tap report"),
    }
    match antiafk_line("tapped  1\twindow") {
        Some(AfkLine::Tapped(m, n)) => {
            assert_eq!(m, "Anti-AFK: tapped 1 Roblox window");
            assert_eq!(n, 1);
        }
        _ => panic!("expected a tap report"),
    }
    match antiafk_line("waiting") {
        Some(AfkLine::Other(m)) => assert_eq!(m, "Anti-AFK: waiting"),
        _ => panic!("expected plain text"),
    }
    assert!(antiafk_line("   ").is_none());
    assert_eq!(antiafk_warning(" bad "), Some("Anti-AFK warning: bad".to_string()));
    assert_eq!(antiafk_warning(""), None);
}

#[test]
fn afk_lines_agree_with_pattern() {
    let mw = regex::Regex::new(r"(?i)tapped\s+(\d+)\s+window").unwrap();
    for line in ["x TAPPED 12 WINDOWS", "tapped 3window", "tappedd 3 window", "tapped 07 window tapped 2 window", "tapped ٣ window"] {
        let t = line.trim();
        let want = mw.captures(t).map(|c| c[1].to_string());
        let got = match antiafk_line(line) {
            Some(AfkLine::Tapped(m, _)) => Some(m),
            _ => None,
        };
        match want {
            Some(n) => {
                let plural = if n == "1" { "" } else { "s" };
                assert_eq!(got, Some(format!("Anti-AFK: tapped {} Roblox window{}", n, plural)));
            }
            None => assert_eq!(got, None),
        }
    }
}

#[test]
fn latest_installed_version() {
    let e = |n: &str, t: Option<i128>| VersionEntry { name: n.to_string(), exe_modified: t };
    let entries = vec![
        e("version-a", Some(5)),
        e("other", Some(99)),
        e("version-b", Some(9)),
        e("version-c", None),
        e("version-d", Some(9)),
    ];
    assert_eq!(pick_latest_version(&entries), Some(2));
    assert_eq!(pick_latest_version(&vec![e("x", Some(1)), e("version-y", None)]), None);
    assert_eq!(pick_latest_version(&vec![]), None);
}

#[test]
fn account_names_in_logs() {
    let accounts = vec![
        obj(vec![("id", s("a1")), ("username", s("alice")), ("userId", s("11"))]),
        obj(vec![("id", s("b2"))]),
        obj(vec![("id", s("a1")), ("username", s("shadow"))]),
    ];
    assert_eq!(find_username(&accounts, "a1"), Some("alice".to_string()));
    assert_eq!(find_user_id(&accounts, "a1"), Some("11".to_string()));
    assert_eq!(find_username(&accounts, "b2"), None);
    assert_eq!(display_name(&accounts, "b2"), "b2");
    assert_eq!(display_name(&accounts, "zz"), "zz");
    assert_eq!(
        kill_all_message(&vec!["alice".to_string(), "b2".to_string()]),
        "Killed all Roblox instances (2 running: alice, b2)"
    );
    assert_eq!(kill_all_message(&vec![]), "Killed all Roblox instances (0 running: none)");
    assert_eq!(kill_one_log("alice"), "Killed Roblox instance for alice");
    assert_eq!(crash_log("alice"), "Roblox closed unexpectedly for alice (missed 6 consecutive checks)");
    assert_eq!(launched_log("alice"), "Launched Roblox for alice");
    assert_eq!(
        launch_csrf_failed_log("alice"),
        "Launch failed for alice: could not get CSRF token (cookie may be expired)"
    );
    assert_eq!(launch_ticket_failed_log("alice", "boom"), "Launch failed for alice: auth ticket error - boom");
    assert_eq!(launch_ticket_error("boom"), "Failed to get auth ticket: boom");
}

#[test]
fn launch_pacing() {
    assert_eq!(stagger_wait(0, 100), 0);
    assert_eq!(stagger_wait(1000, 2000), 3000);
    assert_eq!(stagger_wait(1000, 5000), 0);
    assert_eq!(stagger_wait(1000, 900), 4100);
}

#[test]
fn commands_and_helper_output() {
    assert_eq!(
        tasklist_command("RobloxPlayerBeta.exe"),
        "tasklist /FI \"IMAGENAME eq RobloxPlayerBeta.exe\" /FO CSV /NH"
    );
    assert_eq!(taskkill_pid_command(42), "taskkill /F /PID 42 /T");
    assert!(reports_mutex_held("ok MUTEX_HELD"));
    assert!(!reports_mutex_held("mutex held"));
    assert!(reports_handles_done("HANDLES_DONE"));
    assert_eq!(helper_error_line("  oops \r"), Some("oops".to_string()));
    assert_eq!(helper_error_line(" \t"), None);
    assert_eq!(
        csc_arguments("C:\\d\\RobloxNative.exe", "C:\\r\\RobloxNative.cs"),
        vec![
            "/nologo".to_string(),
            "/optimize+".to_string(),
            "/platform:x64".to_string(),
            "/target:exe".to_string(),
            "/out:C:\\d\\RobloxNative.exe".to_string(),
            "C:\\r\\RobloxNative.cs".to_string(),
        ]
    );
}

#[test]
fn failed_listing_changes_nothing() {
    let mut w = WatchState::new();
    w.watch("a", 0);
    w.track_pid("a", 1234);
    for _ in 0..(MISS_THRESHOLD * 3) {
        assert!(watch_poll(&mut w, None, LAUNCH_DELAY_MS).is_none());
    }
    assert_eq!(w.watched_ids(), vec!["a".to_string()]);
    let (closed, running) = watch_poll(&mut w, Some(LISTING), LAUNCH_DELAY_MS).unwrap();
    assert!(closed.is_empty());
    assert_eq!(running, 2);
    for _ in 0..(MISS_THRESHOLD - 1) {
        assert!(watch_poll(&mut w, Some(""), LAUNCH_DELAY_MS).unwrap().0.is_empty());
    }
    assert_eq!(watch_poll(&mut w, Some(""), LAUNCH_DELAY_MS).unwrap().0, vec!["a".to_string()]);
}
