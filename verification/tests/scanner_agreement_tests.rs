use multiroblox::commands::{fps_read, fps_xml_update};
use multiroblox::native::{
    antiafk_line, count_roblox_processes, player_pids, roblox_still_running, volume_count, AfkLine,
};
use multiroblox::roblox_api::{access_code_from_location, extract_place_link};

struct Lcg(u64);

impl Lcg {
    fn next(&mut self) -> usize {
        self.0 = self.0.wrapping_mul(6364136223846793005).wrapping_add(1442695040888963407);
        (self.0 >> 33) as usize
    }

    fn text(&mut self, pieces: &[&str], n: usize) -> String {
        let mut s = String::new();
        let len = self.next() % n;
        for _ in 0..len {
            s.push_str(pieces[self.next() % pieces.len()]);
        }
        s
    }
}

#[test]
fn process_listings_agree() {
    let count = regex::Regex::new(r"(?i)RobloxPlayerBeta\.exe").unwrap();
    let any = regex::Regex::new(r"(?i)RobloxPlayerBeta\.exe|RobloxCrashHandler\.exe").unwrap();
    let pid = regex::Regex::new(r#""RobloxPlayerBeta\.exe","(\d+)""#).unwrap();
    let pieces = [
        "\"RobloxPlayerBeta.exe\",\"", "RobloxPlayerBeta.exe", "ROBLOXPLAYERBETA.EXE", "robloxcrashhandler.exe",
        "RobloxCraſhHandler.exe", "\"", ",", "12", "4294967296", "٣", "7", " ", "\r\n", "x", "Beta", ".exe",
    ];
    let mut g = Lcg(1);
    for _ in 0..3000 {
        let t = g.text(&pieces, 12);
        assert_eq!(count_roblox_processes(&t) as usize, count.find_iter(&t).count(), "{:?}", t);
        assert_eq!(roblox_still_running(&t), any.is_match(&t), "{:?}", t);
        let want: Vec<u32> = pid.captures_iter(&t).filter_map(|c| c[1].parse::<u32>().ok()).collect();
        assert_eq!(player_pids(&t), want, "{:?}", t);
    }
}

#[test]
fn helper_reports_agree() {
    let set = regex::Regex::new(r"SET:(\d+)").unwrap();
    let tapped = regex::Regex::new(r"(?i)tapped\s+(\d+)\s+window").unwrap();
    let pieces = ["SET:", "set:", "Tapped", "tapped", " ", "\t", "\u{a0}", "1", "23", "٣", "window", "WINDOWS", "x", ":"];
    let mut g = Lcg(2);
    for _ in 0..3000 {
        let t = g.text(&pieces, 10);
        let want = set.captures(&t).and_then(|c| c[1].parse::<i64>().ok()).unwrap_or(0);
        assert_eq!(volume_count(&t), want, "{:?}", t);
        let line = t.trim();
        let got = match antiafk_line(&t) {
            Some(AfkLine::Tapped(m, n)) => Some((m, n)),
            _ => None,
        };
        let want = if line.is_empty() {
            None
        } else {
            tapped.captures(line).map(|c| {
                let n = c[1].to_string();
                let plural = if n == "1" { "" } else { "s" };
                (format!("Anti-AFK: tapped {} Roblox window{}", n, plural), n.parse::<i64>().unwrap_or(0))
            })
        };
        assert_eq!(got, want, "{:?}", t);
    }
}

#[test]
fn web_replies_agree() {
    let pid = regex::Regex::new(r#""placeId"\s*:\s*(\d+)"#).unwrap();
    let lc = regex::Regex::new(r#""(?:linkCode|privateServerLinkCode|accessCode|linkcode)"\s*:\s*"([A-Za-z0-9_\-]+)""#).unwrap();
    let loc = regex::Regex::new(r"[?&]accessCode=([^&]+)").unwrap();
    let pieces = [
        "\"placeId\"", "\"linkCode\"", "\"privateServerLinkCode\"", "\"accessCode\"", "\"linkcode\"", ":", " ",
        "\"", "12", "ab-C_", "!", "?", "&", "accessCode=", "=", "x", "\n",
    ];
    let mut g = Lcg(3);
    for _ in 0..4000 {
        let t = g.text(&pieces, 12);
        let want = match (pid.captures(&t), lc.captures(&t)) {
            (Some(p), Some(c)) => Some((p[1].to_string(), c[1].to_string())),
            _ => None,
        };
        assert_eq!(extract_place_link(&t), want, "{:?}", t);
        let want_loc = loc.captures(&t).map(|c| c[1].to_string());
        assert_eq!(access_code_from_location(&t), want_loc, "{:?}", t);
    }
}

#[test]
fn frame_rate_settings_agree() {
    let read = regex::Regex::new(r#"(?i)<int\s+name="FramerateCap"\s*>(\d+)</int>"#).unwrap();
    let write = regex::Regex::new(r#"(?i)<int\s+name="FramerateCap"\s*>\d+</int>"#).unwrap();
    let item = regex::Regex::new(r"</Item>").unwrap();
    let pieces = [
        "<int", "<INT", " ", "\t", "name=\"FramerateCap\"", "NAME=\"frameratecap\"", ">", "60", "٣", "</int>",
        "</INT>", "</Item>", "<Item>", "x",
    ];
    let mut g = Lcg(4);
    for _ in 0..4000 {
        let x = g.text(&pieces, 12);
        let want_read = read.captures(&x).and_then(|c| c[1].parse::<i64>().ok()).unwrap_or(60);
        assert_eq!(fps_read(Some(&x)), want_read, "{:?}", x);
        let want_write = if write.is_match(&x) {
            write.replace(&x, "<int name=\"FramerateCap\">90</int>").to_string()
        } else {
            item.replace(&x, "\t\t<int name=\"FramerateCap\">90</int>\n</Item>").to_string()
        };
        assert_eq!(fps_xml_update(&x, 90), want_write, "{:?}", x);
    }
}
