use fixmanager::config::{resolve_target_folder, resolved_paths_for_ui, AppConfig, GamePath};
use fixmanager::games::{find_game, games};

fn pair(key: &str, path: &str) -> GamePath {
    GamePath { key: key.to_string(), path: path.to_string() }
}

fn config_with(paths: Vec<GamePath>) -> AppConfig {
    AppConfig {
        mode: "dark".to_string(),
        game_paths: paths,
        last_updater_release_tag: None,
        last_app_release_tag: None,
        last_resources_tag: None,
    }
}

#[test]
fn default_config_is_light_and_empty() {
    let c = AppConfig::default();
    assert_eq!(c.mode, "light");
    assert!(c.game_paths.is_empty());
    assert_eq!(c.last_updater_release_tag, None);
    assert_eq!(c.last_app_release_tag, None);
    assert_eq!(c.last_resources_tag, None);
}

#[test]
fn unknown_mode_becomes_light() {
    let mut c = config_with(vec![]);
    c.mode = "blue".to_string();
    assert_eq!(c.normalize_loaded().mode, "light");
    let c = config_with(vec![]);
    assert_eq!(c.normalize_loaded().mode, "dark");
    let mut c = config_with(vec![]);
    c.mode = "Dark".to_string();
    assert_eq!(c.normalize_loaded().mode, "light");
}

#[test]
fn normalizing_twice_changes_nothing() {
    let mut c = config_with(vec![]);
    c.mode = "".to_string();
    let once = c.normalize_loaded();
    let mode = once.mode.clone();
    assert_eq!(once.normalize_loaded().mode, mode);
}

#[test]
fn pruning_drops_blank_paths_only() {
    let c = config_with(vec![pair("gi", "  "), pair("hsr", "D:\\Mods"), pair("zzz", ""), pair("wuwa", " x ")]);
    let p = c.prune_blank_paths();
    let keys: Vec<&str> = p.game_paths.iter().map(|g| g.key.as_str()).collect();
    assert_eq!(keys, vec!["hsr", "wuwa"]);
    assert_eq!(p.game_paths[1].path, " x ");
    assert_eq!(p.mode, "dark");
}

#[test]
fn pruning_keeps_every_game_folder() {
    let c = config_with(vec![pair("gi", "  "), pair("hsr", " D:\\Mods ")]);
    let before: Vec<Option<String>> = games().iter().map(|g| resolve_target_folder(g, &c)).collect();
    let p = c.prune_blank_paths();
    let after: Vec<Option<String>> = games().iter().map(|g| resolve_target_folder(g, &p)).collect();
    assert_eq!(before, after);
}

#[test]
fn override_is_trimmed() {
    let c = config_with(vec![pair("hsr", "  D:\\Games\\SRMI \n")]);
    let hsr = find_game("hsr").unwrap();
    assert_eq!(resolve_target_folder(&hsr, &c), Some("D:\\Games\\SRMI".to_string()));
    let gi = find_game("gi").unwrap();
    assert_eq!(resolve_target_folder(&gi, &c), None);
}

#[test]
fn blank_override_means_discovery() {
    let c = config_with(vec![pair("gi", " \t ")]);
    let gi = find_game("gi").unwrap();
    assert_eq!(resolve_target_folder(&gi, &c), None);
}

#[test]
fn path_override_reads_the_stored_value() {
    let c = config_with(vec![pair("gi", " a "), pair("zzz", "b")]);
    assert_eq!(c.path_override("gi"), Some(" a ".to_string()));
    assert_eq!(c.path_override("zzz"), Some("b".to_string()));
    assert_eq!(c.path_override("hi3"), None);
}

#[test]
fn ui_paths_prefer_configured_folders() {
    let c = config_with(vec![pair("hsr", " H "), pair("gi", "")]);
    let discovered = vec![
        Some("found-gi".to_string()),
        Some("found-hsr".to_string()),
        None,
        Some("found-zzz".to_string()),
        None,
    ];
    let r = resolved_paths_for_ui(&c, &discovered);
    let got: Vec<(String, String)> = r.into_iter().map(|g| (g.key, g.path)).collect();
    assert_eq!(
        got,
        vec![
            ("gi".to_string(), "found-gi".to_string()),
            ("hsr".to_string(), "H".to_string()),
            ("zzz".to_string(), "found-zzz".to_string()),
        ]
    );
}

#[test]
fn recorded_tags_are_kept() {
    let mut c = AppConfig::default();
    c.set_last_updater_release_tag("u1".to_string());
    c.set_last_app_release_tag("a1".to_string());
    c.set_last_resources_tag("r1".to_string());
    assert_eq!(c.last_updater_release_tag.as_deref(), Some("u1"));
    assert_eq!(c.last_app_release_tag.as_deref(), Some("a1"));
    assert_eq!(c.last_resources_tag.as_deref(), Some("r1"));
    assert_eq!(c.mode, "light");
}
