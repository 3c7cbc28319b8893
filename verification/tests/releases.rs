use fixmanager::config::AppConfig;
use fixmanager::release::{
    app_asset, check_app_update, check_resources_update, find_asset, plan_updater_sync, resources_asset,
    resources_updated_message, select_app_asset, updater_synced_message, ReleaseAsset, ReleaseResponse,
    UpdaterSync,
};

fn asset(name: &str) -> ReleaseAsset {
    ReleaseAsset { name: name.to_string(), browser_download_url: format!("https://example.invalid/{name}") }
}

fn release(tag: &str, names: &[&str]) -> ReleaseResponse {
    ReleaseResponse { tag_name: tag.to_string(), assets: names.iter().map(|n| asset(n)).collect() }
}

#[test]
fn asset_names_match_ignoring_ascii_case() {
    let assets = release("t", &["readme.md", "Update.EXE", "update.exe"]).assets;
    assert_eq!(find_asset(&assets, "update.exe"), Some(1));
    assert_eq!(find_asset(&assets, "missing.zip"), None);
}

#[test]
fn app_asset_prefers_the_named_executable() {
    let r = release("t", &["other.exe", "FixManager.exe"]);
    assert_eq!(select_app_asset(&r.assets), Some(1));
}

#[test]
fn app_asset_falls_back_to_another_executable() {
    let r = release("t", &["update.exe", "notes.txt", "Tool.EXE", "z.exe"]);
    assert_eq!(select_app_asset(&r.assets), Some(2));
    let r = release("t", &["UPDATE.exe", "notes.txt"]);
    assert_eq!(select_app_asset(&r.assets), None);
}

#[test]
fn newer_release_is_an_app_update() {
    let c = AppConfig::default();
    let r = check_app_update(&c, "v1.3.0".to_string(), "1.2.9");
    assert_eq!(r.latest_tag, "v1.3.0");
    assert!(r.update_available);
    let r = check_app_update(&c, "version_1.2.9".to_string(), "1.2.9");
    assert!(!r.update_available);
    let r = check_app_update(&c, "v1.0".to_string(), "1.2.9");
    assert!(!r.update_available);
}

#[test]
fn installed_release_is_not_offered_again() {
    let mut c = AppConfig::default();
    c.set_last_app_release_tag("v9.0".to_string());
    let r = check_app_update(&c, "v9.0".to_string(), "1.0");
    assert!(!r.update_available);
    let r = check_app_update(&c, "v9.1".to_string(), "1.0");
    assert!(r.update_available);
}

#[test]
fn tag_without_version_is_compared_as_is() {
    let c = AppConfig::default();
    // "latest" names no version, so it is read as the version "latest": [0].
    let r = check_app_update(&c, "latest".to_string(), "0");
    assert!(!r.update_available);
    let r = check_app_update(&c, "2".to_string(), "1");
    assert!(r.update_available);
}

#[test]
fn resources_update_when_tag_differs() {
    let mut c = AppConfig::default();
    let r = check_resources_update(&c, "r1".to_string());
    assert!(r.update_available);
    assert_eq!(r.latest_tag, "r1");
    c.set_last_resources_tag("r1".to_string());
    assert!(!check_resources_update(&c, "r1".to_string()).update_available);
    assert!(check_resources_update(&c, "r2".to_string()).update_available);
    let empty = AppConfig::default();
    assert!(!check_resources_update(&empty, "".to_string()).update_available);
}

#[test]
fn updater_sync_plans() {
    let mut c = AppConfig::default();
    let r = release("v2", &["a.zip", "update.exe"]);
    assert!(matches!(plan_updater_sync(&c, &r, false), UpdaterSync::Download(1)));
    c.set_last_updater_release_tag("v2".to_string());
    match plan_updater_sync(&c, &r, false) {
        UpdaterSync::AlreadySynced(m) => assert_eq!(m, "Updater already synced for v2"),
        _ => panic!("expected the updater to be in sync"),
    }
    assert!(matches!(plan_updater_sync(&c, &r, true), UpdaterSync::Download(1)));
    let none = release("v3", &["a.zip"]);
    match plan_updater_sync(&c, &none, false) {
        UpdaterSync::Missing(m) => assert_eq!(m, "No update.exe asset found in latest app release"),
        _ => panic!("expected a missing updater"),
    }
}

#[test]
fn updater_messages() {
    assert_eq!(updater_synced_message("v2", false, "C:\\App\\update.exe"), "Updater synced to v2 at C:\\App\\update.exe");
    assert_eq!(updater_synced_message("v2", true, "/opt/update.exe"), "Updater re-downloaded from v2 to /opt/update.exe");
}

#[test]
fn resources_asset_and_message() {
    let r = release("r5", &["Resources_F_M.zip"]);
    assert_eq!(resources_asset(&r), Ok(0));
    let r = release("r5", &["other.zip"]);
    assert_eq!(resources_asset(&r), Err("No resources_f_m.zip found in latest resources release".to_string()));
    assert_eq!(resources_updated_message("r5"), "Resources updated to r5");
}

#[test]
fn app_asset_or_report() {
    assert_eq!(app_asset(&release("t", &["x.txt", "FIXMANAGER.EXE"])), Ok(1));
    assert_eq!(app_asset(&release("t", &["update.exe"])), Err("No app .exe asset found in latest release".to_string()));
}
