use multiroblox::commands::global_settings_path;
use multiroblox::login::chrome_cache_dir;
use multiroblox::native::{get_fflag_path, native_resource_path, player_exe_path, roblox_versions_dir, strip_verbatim_prefix};
use multiroblox::paths::{accounts_path, app_data_dir, genhistory_path, join_path, local_state_path, packages_path, settings_path};

#[test]
fn join_adds_one_backslash() {
    assert_eq!(join_path("C:\\Users\\a", "x"), "C:\\Users\\a\\x");
    assert_eq!(join_path("C:\\Users\\a\\", "x"), "C:\\Users\\a\\x");
    assert_eq!(join_path("C:/Users/a/", "x"), "C:/Users/a/x");
    assert_eq!(join_path("", "x"), "x");
    assert_eq!(join_path("C:", "x"), "C:x");
}

#[test]
fn data_files_live_in_the_data_dir() {
    let dir = app_data_dir(Some("C:\\Users\\a\\AppData\\Roaming"));
    assert_eq!(dir, "C:\\Users\\a\\AppData\\Roaming\\multiroblox");
    assert_eq!(app_data_dir(None), ".\\multiroblox");
    assert_eq!(settings_path(&dir), format!("{}\\settings.json", dir));
    assert_eq!(accounts_path(&dir), format!("{}\\accounts.json", dir));
    assert_eq!(packages_path(&dir), format!("{}\\packages.json", dir));
    assert_eq!(genhistory_path(&dir), format!("{}\\genhistory.json", dir));
    assert_eq!(local_state_path(&dir), format!("{}\\Local State", dir));
    assert_eq!(chrome_cache_dir(&dir), format!("{}\\chrome-for-login", dir));
}

#[test]
fn game_install_layout() {
    assert_eq!(roblox_versions_dir("C:\\Users\\a"), "C:\\Users\\a\\AppData\\Local\\Roblox\\Versions");
    assert_eq!(global_settings_path(""), "AppData\\Local\\Roblox\\GlobalBasicSettings_13.xml");
    assert_eq!(
        get_fflag_path("C:\\R\\version-abc"),
        "C:\\R\\version-abc\\ClientSettings\\ClientAppSettings.json"
    );
    assert_eq!(player_exe_path("C:\\R\\version-abc"), "C:\\R\\version-abc\\RobloxPlayerBeta.exe");
}

#[test]
fn verbatim_prefix_is_dropped() {
    assert_eq!(strip_verbatim_prefix("\\\\?\\C:\\app"), "C:\\app");
    assert_eq!(strip_verbatim_prefix("C:\\app"), "C:\\app");
    assert_eq!(
        native_resource_path("\\\\?\\C:\\Program Files\\MR", "RobloxNative.cs"),
        "C:\\Program Files\\MR\\resources\\RobloxNative.cs"
    );
}
