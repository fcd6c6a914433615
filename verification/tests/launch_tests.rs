use multiroblox::launch::{
    browser_tracker_id, job_shorthand, new_browser_tracker_id, plan_target, plan_url, roblox_uri, LaunchPlan,
    NO_PLACE_ID, NO_SHARE_CODE, UNRECOGNISED_TARGET,
};

const GAME: &str = "https://assetgame.roblox.com/game/placelauncher.ashx?request=RequestGame&placeId=";
const GUID: &str = "0b1a2c3d-4e5f-6789-abcd-ef0123456789";

fn launcher(p: LaunchPlan) -> String {
    match p {
        LaunchPlan::Launcher(u) => u,
        _ => panic!("expected a launcher URL"),
    }
}

fn failed(p: LaunchPlan) -> String {
    match p {
        LaunchPlan::Failed(m) => m,
        _ => panic!("expected a failure"),
    }
}

#[test]
fn empty_target_opens_home() {
    assert!(matches!(plan_target(""), LaunchPlan::Home));
    assert!(matches!(plan_target("   "), LaunchPlan::Home));
}

#[test]
fn bare_place_id_joins_the_game() {
    assert_eq!(launcher(plan_target(" 1818 ")), format!("{}1818&isPlayTogetherGame=false", GAME));
}

#[test]
fn job_shorthand_joins_one_server() {
    let want = format!(
        "https://assetgame.roblox.com/game/PlaceLauncher.ashx?request=RequestGameJob&placeId=1818&gameId={}&isPlayTogetherGame=false",
        GUID
    );
    assert_eq!(launcher(plan_target(&format!("1818:{}", GUID))), want);
    assert_eq!(launcher(plan_target(&format!("1818, {}", GUID))), want);
    assert_eq!(job_shorthand(&format!("1818,{}", GUID)), Some(("1818".to_string(), GUID.to_string())));
    assert_eq!(job_shorthand("1818:not-a-guid"), None);
    assert_eq!(job_shorthand(&format!("x1818:{}", GUID)), None);
}

#[test]
fn game_links_join_the_game() {
    assert_eq!(
        launcher(plan_target("https://www.roblox.com/games/920587237/Adopt-Me")),
        format!("{}920587237&isPlayTogetherGame=false", GAME)
    );
    assert_eq!(
        launcher(plan_target("www.roblox.com/games/start?placeId=42")),
        format!("{}42&isPlayTogetherGame=false", GAME)
    );
}

#[test]
fn job_id_in_query_joins_that_server() {
    let p = plan_target("roblox.com/games/55?gameInstanceId=abc");
    assert_eq!(
        launcher(p),
        "https://assetgame.roblox.com/game/PlaceLauncher.ashx?request=RequestGameJob&placeId=55&gameId=abc&isPlayTogetherGame=false"
    );
}

#[test]
fn private_server_links_need_an_access_code() {
    match plan_target("https://www.roblox.com/games/1/x?privateServerLinkCode=abc123") {
        LaunchPlan::PrivateServer { place_id, link_code } => {
            assert_eq!(place_id, "1");
            assert_eq!(link_code, "abc123");
        }
        _ => panic!("expected a private server plan"),
    }
}

#[test]
fn share_links_are_resolved() {
    match plan_target("https://www.roblox.com/share?code=xyz&type=Server") {
        LaunchPlan::ShareLink { code } => assert_eq!(code, "xyz"),
        _ => panic!("expected a share link plan"),
    }
    assert_eq!(failed(plan_target("https://www.roblox.com/share")), NO_SHARE_CODE);
}

#[test]
fn short_links_are_followed() {
    match plan_target("https://ro.blox.com/Ebh5?af_web_dp=x") {
        LaunchPlan::FollowRedirect(u) => assert_eq!(u, "https://ro.blox.com/Ebh5?af_web_dp=x"),
        _ => panic!("expected a redirect"),
    }
}

#[test]
fn links_without_place_fail() {
    assert_eq!(failed(plan_target("https://www.roblox.com/home")), NO_PLACE_ID);
    assert_eq!(failed(plan_url("not a url")), UNRECOGNISED_TARGET);
}

#[test]
fn app_uri_without_launcher() {
    assert_eq!(
        roblox_uri("TICKET", 1700000000000, "", 1234567890123),
        "roblox-player:1+launchmode:app+gameinfo:TICKET+launchtime:1700000000000+browsertrackerid:1234567890123+robloxLocale:en_us+gameLocale:en_us"
    );
}

#[test]
fn play_uri_encodes_the_launcher_url() {
    assert_eq!(
        roblox_uri("T", -5, "https://x.y/a?b=c&d=e f", 1000000000000),
        "roblox-player:1+launchmode:play+gameinfo:T+launchtime:-5+placelauncherurl:https%3A%2F%2Fx.y%2Fa%3Fb%3Dc%26d%3De%20f+browsertrackerid:1000000000000+robloxLocale:en_us+gameLocale:en_us+channel:+LaunchExp:InApp"
    );
}

#[test]
fn tracker_ids_have_thirteen_digits() {
    assert_eq!(browser_tracker_id(0), 1_000_000_000_000);
    assert_eq!(browser_tracker_id(u64::MAX), 3_073_709_551_615);
    assert_eq!(browser_tracker_id(8_999_999_999_999), 9_999_999_999_999);
    for _ in 0..20 {
        let id = new_browser_tracker_id();
        assert!((1_000_000_000_000..10_000_000_000_000).contains(&id));
    }
}
