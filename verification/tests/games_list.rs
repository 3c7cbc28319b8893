use fixmanager::games::{find_game, games};

#[test]
fn five_games_in_order() {
    let g = games();
    let keys: Vec<&str> = g.iter().map(|x| x.key.as_str()).collect();
    assert_eq!(keys, vec!["gi", "hsr", "wuwa", "zzz", "hi3"]);
    assert_eq!(g[0].name, "Genshin Impact");
    assert_eq!(g[1].mod_folder_name, "SRMI");
    assert_eq!(g[2].subfolder, "wuwa");
    assert_eq!(g[3].name, "Zenless Zone Zero");
    assert_eq!(g[4].mod_folder_name, "HIMI");
}

#[test]
fn every_game_is_found_by_its_key() {
    for g in games() {
        let f = find_game(&g.key).unwrap();
        assert_eq!(f.name, g.name);
        assert_eq!(f.mod_folder_name, g.mod_folder_name);
    }
}

#[test]
fn unknown_key_finds_nothing() {
    assert!(find_game("xyz").is_none());
    assert!(find_game("GI").is_none());
    assert!(find_game("").is_none());
}
