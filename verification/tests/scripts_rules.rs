use fixmanager::scripts::{
    extension_of, import_step, lists_as_script, script_not_found_message, override_target, runs_with_python,
    script_exit_message, script_ran_message, select_scripts, start_import, target_folder_or_error,
    missing_target_message, ImportStep, ImportTally,
};

#[test]
fn extensions_follow_path_rules() {
    assert_eq!(extension_of("run.py"), Some("py".to_string()));
    assert_eq!(extension_of("archive.tar.gz"), Some("gz".to_string()));
    assert_eq!(extension_of(".profile"), None);
    assert_eq!(extension_of("noext"), None);
    assert_eq!(extension_of("trailing."), Some("".to_string()));
    assert_eq!(extension_of("..py"), Some("py".to_string()));
    assert_eq!(extension_of(".."), None);
    assert_eq!(extension_of(""), None);
}

#[test]
fn listed_scripts_are_py_or_exe_in_any_case() {
    assert!(lists_as_script("fix.py"));
    assert!(lists_as_script("Fix.PY"));
    assert!(lists_as_script("tool.Exe"));
    assert!(!lists_as_script("notes.txt"));
    assert!(!lists_as_script(".py"));
    assert!(!lists_as_script("py"));
}

#[test]
fn scripts_are_filtered_and_sorted() {
    let names: Vec<String> = ["b.py", "readme.md", "A.exe", "a.py", "c.PY", "Z.txt", "B.py"]
        .iter()
        .map(|s| s.to_string())
        .collect();
    let r = select_scripts(&names);
    assert_eq!(r, vec!["A.exe", "B.py", "a.py", "b.py", "c.PY"]);
}

#[test]
fn sorting_matches_string_order() {
    let names: Vec<String> = ["é.py", "e.py", "ee.py", "e.exe", "E.py"].iter().map(|s| s.to_string()).collect();
    let mut expected: Vec<String> = names.clone();
    expected.sort();
    assert_eq!(select_scripts(&names), expected);
}

#[test]
fn empty_listing_gives_no_scripts() {
    assert!(select_scripts(&vec![]).is_empty());
}

#[test]
fn import_needs_a_known_game_and_files() {
    match start_import("nope", 3) {
        Err(m) => assert_eq!(m, "Unknown game key: nope"),
        Ok(_) => panic!("unknown key accepted"),
    }
    match start_import("gi", 0) {
        Err(m) => assert_eq!(m, "No files were provided."),
        Ok(_) => panic!("empty import accepted"),
    }
    match start_import("nope", 0) {
        Err(m) => assert_eq!(m, "Unknown game key: nope"),
        Ok(_) => panic!("unknown key accepted"),
    }
    let g = start_import("zzz", 1).ok().unwrap();
    assert_eq!(g.name, "Zenless Zone Zero");
}

#[test]
fn import_steps() {
    assert!(matches!(import_step(true, Some("a.PY".to_string())), ImportStep::Copy(n) if n == "a.PY"));
    assert!(matches!(import_step(true, Some("b.exe".to_string())), ImportStep::Copy(_)));
    assert!(matches!(import_step(true, Some("c.txt".to_string())), ImportStep::Skip));
    assert!(matches!(import_step(false, Some("d.py".to_string())), ImportStep::Skip));
    assert!(matches!(import_step(true, None), ImportStep::Skip));
}

#[test]
fn import_reports() {
    let mut t = ImportTally::new();
    assert_eq!(t.outcome("Genshin Impact"), Err("No valid .py or .exe files were imported.".to_string()));
    t.record(false);
    assert_eq!(t.outcome("Genshin Impact"), Err("No valid .py or .exe files were imported.".to_string()));
    t.record(true);
    t.record(true);
    assert_eq!(t.outcome("Genshin Impact"), Ok("Imported 2 file(s) to Genshin Impact (1 skipped)".to_string()));
    let mut u = ImportTally::new();
    for _ in 0..12 {
        u.record(true);
    }
    assert_eq!(u.outcome("Honkai Impact 3rd"), Ok("Imported 12 file(s) to Honkai Impact 3rd".to_string()));
}

#[test]
fn run_folder_choice() {
    assert_eq!(override_target(Some("  D:\\Mods  ".to_string())), Some("D:\\Mods".to_string()));
    assert_eq!(override_target(Some(" ".to_string())), None);
    assert_eq!(override_target(None), None);
    assert_eq!(target_folder_or_error(Some("X".to_string()), "Genshin Impact"), Ok("X".to_string()));
    assert_eq!(
        target_folder_or_error(None, "Genshin Impact"),
        Err("No mod folder found for Genshin Impact. Select a run path or set a game mod folder in Settings.".to_string())
    );
}

#[test]
fn python_scripts_by_name() {
    assert!(runs_with_python("fix.py"));
    assert!(runs_with_python("FIX.PY"));
    assert!(!runs_with_python("fix.exe"));
    assert!(!runs_with_python("py"));
}

#[test]
fn run_messages() {
    assert_eq!(script_exit_message(Some(3)), "Script exited with code 3");
    assert_eq!(script_exit_message(Some(-2147483648)), "Script exited with code -2147483648");
    assert_eq!(script_exit_message(None), "Script exited with code -1");
    assert_eq!(script_exit_message(Some(0)), "Script exited with code 0");
    assert_eq!(script_ran_message("fix.py"), "Successfully ran fix.py");
    assert_eq!(missing_target_message("D:\\x"), "Target folder does not exist: D:\\x");
}

#[test]
fn script_not_found_report() {
    assert_eq!(script_not_found_message("C:\\res\\gi\\x.py"), "Script not found: C:\\res\\gi\\x.py");
}
