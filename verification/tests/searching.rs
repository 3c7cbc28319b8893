use fixmanager::paths::{config_path, discovery_roots, embedded_python_path, game_scripts_dir, resources_dir, FsPath};
use fixmanager::search::{DirEntry, Discovery, DiscoveryStep, FolderSearch, SearchStep};
use fixmanager::games::find_game;

fn path(parts: &[&str]) -> FsPath {
    FsPath::from_parts("/".to_string(), parts.iter().map(|s| s.to_string()).collect())
}

fn parts(p: &FsPath) -> Vec<String> {
    p.parts.clone()
}

/// A small tree: each folder with its entries (name, is_dir), in listing order.
fn listing(p: &FsPath) -> Option<Vec<DirEntry>> {
    let key: Vec<&str> = p.parts.iter().map(|s| s.as_str()).collect();
    let children: &[(&str, bool)] = match key.as_slice() {
        ["home"] => &[("notes.txt", false), ("Games", true), ("Documents", true)],
        ["home", "Games"] => &[("Steam", true), ("srmi", false)],
        ["home", "Games", "Steam"] => &[("deep", true)],
        ["home", "Games", "Steam", "deep"] => &[("SRMI", true)],
        ["home", "Documents"] => &[("Mods", true)],
        ["home", "Documents", "Mods"] => &[("srmi", true)],
        _ => return None,
    };
    Some(
        children
            .iter()
            .map(|(n, d)| {
                let mut q = p.parts.clone();
                q.push(n.to_string());
                DirEntry { path: FsPath::from_parts("/".to_string(), q), is_dir: *d }
            })
            .collect(),
    )
}

fn run_search(root: FsPath, wanted: &str, depth: u8) -> (Option<FsPath>, usize) {
    let (mut s, mut step) = FolderSearch::start(root, wanted.to_string(), depth);
    let mut listed = 0;
    loop {
        match step {
            SearchStep::List(p) => {
                listed += 1;
                let l = listing(&p);
                let r = s.resume(l);
                s = r.0;
                step = r.1;
            }
            SearchStep::Found(p) => return (Some(p), listed),
            SearchStep::NotFound => return (None, listed),
        }
    }
}

#[test]
fn search_finds_first_match_depth_first() {
    let (found, _) = run_search(path(&["home"]), "SRMI", 3);
    assert_eq!(parts(&found.unwrap()), vec!["home", "Documents", "Mods", "srmi"]);
}

#[test]
fn search_respects_depth() {
    // With four levels the deeper folder under Games comes first.
    let (found, _) = run_search(path(&["home"]), "srmi", 4);
    assert_eq!(parts(&found.unwrap()), vec!["home", "Games", "Steam", "deep", "SRMI"]);
    let (found, _) = run_search(path(&["home"]), "srmi", 2);
    assert!(found.is_none());
}

#[test]
fn search_with_zero_depth_lists_nothing() {
    let (found, listed) = run_search(path(&["home"]), "Games", 0);
    assert!(found.is_none());
    assert_eq!(listed, 0);
}

#[test]
fn search_of_missing_folder_finds_nothing() {
    let (found, listed) = run_search(path(&["nowhere"]), "SRMI", 3);
    assert!(found.is_none());
    assert_eq!(listed, 1);
}

#[test]
fn discovery_prefers_direct_folders() {
    let roots = vec![path(&["home"]), path(&["home", "Documents", "Mods"])];
    let (mut d, mut step) = Discovery::start(roots, "srmi".to_string());
    let mut checks = Vec::new();
    let found = loop {
        match step {
            DiscoveryStep::CheckFolder(p) => {
                checks.push(parts(&p));
                let is_dir = p.parts == vec!["home", "Documents", "Mods", "srmi"];
                let r = d.folder_checked(is_dir);
                d = r.0;
                step = r.1;
            }
            DiscoveryStep::List(p) => {
                let r = d.resume(listing(&p));
                d = r.0;
                step = r.1;
            }
            DiscoveryStep::Found(p) => break Some(p),
            DiscoveryStep::NotFound => break None,
        }
    };
    assert_eq!(checks, vec![vec!["home", "srmi"], vec!["home", "Documents", "Mods", "srmi"]]);
    assert_eq!(parts(&found.unwrap()), vec!["home", "Documents", "Mods", "srmi"]);
}

#[test]
fn discovery_searches_when_no_direct_folder() {
    let roots = vec![path(&["home"])];
    let (mut d, mut step) = Discovery::start(roots, "MODS".to_string());
    let found = loop {
        match step {
            DiscoveryStep::CheckFolder(_) => {
                let r = d.folder_checked(false);
                d = r.0;
                step = r.1;
            }
            DiscoveryStep::List(p) => {
                let r = d.resume(listing(&p));
                d = r.0;
                step = r.1;
            }
            DiscoveryStep::Found(p) => break Some(p),
            DiscoveryStep::NotFound => break None,
        }
    };
    assert_eq!(parts(&found.unwrap()), vec!["home", "Documents", "Mods"]);
}

#[test]
fn files_and_folders_of_the_manager() {
    let base = path(&["opt", "app"]);
    assert_eq!(parts(&config_path(&base)), vec!["opt", "app", "config.json"]);
    assert_eq!(parts(&resources_dir(&base)), vec!["opt", "app", "resources"]);
    let g = find_game("wuwa").unwrap();
    assert_eq!(parts(&game_scripts_dir(&base, &g)), vec!["opt", "app", "resources", "wuwa"]);
    assert_eq!(parts(&embedded_python_path(&base)), vec!["opt", "app", "python-3.15.0a1-embed-amd64", "python.exe"]);
    assert_eq!(config_path(&base).root, "/");
}

#[test]
fn discovery_roots_in_order() {
    let home = Some(path(&["h"]));
    let docs = Some(path(&["d"]));
    let desk = None;
    let roots = discovery_roots(home, docs, desk);
    let got: Vec<Vec<String>> = roots.iter().map(parts).collect();
    assert_eq!(
        got,
        vec![
            vec!["h".to_string()],
            vec!["h".to_string(), "Desktop".to_string()],
            vec!["h".to_string(), "Documents".to_string()],
            vec!["h".to_string(), "Downloads".to_string()],
            vec!["h".to_string(), "Games".to_string()],
            vec!["h".to_string(), "Documents".to_string(), "My Games".to_string()],
            vec!["d".to_string()],
            vec!["d".to_string(), "My Games".to_string()],
        ]
    );
    assert_eq!(discovery_roots(None, None, Some(path(&["k"]))).len(), 1);
}

#[test]
fn file_names_of_paths() {
    assert_eq!(path(&["a", "b"]).file_name(), Some("b".to_string()));
    assert_eq!(path(&["a", ".."]).file_name(), None);
    assert_eq!(path(&[]).file_name(), None);
}
