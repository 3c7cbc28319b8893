use std::io::Write;

use fixmanager::archive::{components_of_name, plan_extraction, read_zip, root_for_rooted_name, ExtractStep, ZipEntry};
use fixmanager::paths::FsPath;

fn zip_bytes(entries: &[(&str, &[u8])]) -> Vec<u8> {
    let mut w = zip::ZipWriter::new(std::io::Cursor::new(Vec::new()));
    let options = zip::write::SimpleFileOptions::default();
    for (name, data) in entries {
        if name.ends_with('/') {
            w.add_directory(*name, options).unwrap();
        } else {
            w.start_file(*name, options).unwrap();
            w.write_all(data).unwrap();
        }
    }
    w.finish().unwrap().into_inner()
}

fn entry(name: &str, data: &[u8]) -> ZipEntry {
    ZipEntry { name: name.to_string(), data: data.to_vec() }
}

fn describe(steps: &[ExtractStep]) -> Vec<String> {
    steps
        .iter()
        .map(|s| match s {
            ExtractStep::CreateDir(p) => format!("dir {}{}", p.root, p.parts.join("/")),
            ExtractStep::WriteFile(p, i) => format!("file {}{} <- {}", p.root, p.parts.join("/"), i),
        })
        .collect()
}

#[test]
fn archive_entries_are_read_in_order() {
    let bytes = zip_bytes(&[("gi/", b""), ("gi/fix.py", b"print(1)"), ("top.txt", b"hello")]);
    let read = read_zip(bytes).unwrap();
    assert!(read.failure.is_none());
    let got: Vec<(String, Vec<u8>)> = read.entries.into_iter().map(|e| (e.name, e.data)).collect();
    assert_eq!(
        got,
        vec![
            ("gi/".to_string(), vec![]),
            ("gi/fix.py".to_string(), b"print(1)".to_vec()),
            ("top.txt".to_string(), b"hello".to_vec()),
        ]
    );
}

#[test]
fn bytes_that_are_no_archive_are_refused() {
    match read_zip(b"not a zip file".to_vec()) {
        Err(m) => assert!(m.starts_with("Invalid zip archive: ")),
        Ok(_) => panic!("garbage accepted as an archive"),
    }
}

#[test]
fn entry_names_become_components() {
    assert_eq!(components_of_name("a//b/./c"), vec!["a", "b", "c"]);
    assert_eq!(components_of_name("gi/"), vec!["gi"]);
    assert_eq!(components_of_name(""), Vec::<String>::new());
    assert_eq!(components_of_name("../x"), vec!["..", "x"]);
}

#[test]
fn extraction_plan_creates_folders_then_writes_files() {
    let dest = FsPath::from_parts("/".to_string(), vec!["d".to_string()]);
    let entries = vec![entry("gi/", b""), entry("gi/fix.py", b"x"), entry("top.txt", b"y")];
    let steps = plan_extraction(&dest, &entries);
    assert_eq!(
        describe(&steps),
        vec!["dir /d/gi", "dir /d/gi", "file /d/gi/fix.py <- 1", "dir /d", "file /d/top.txt <- 2"]
    );
}

#[test]
fn empty_archive_plans_nothing() {
    let dest = FsPath::from_parts("/".to_string(), vec!["d".to_string()]);
    assert!(plan_extraction(&dest, &vec![]).is_empty());
    let read = read_zip(zip_bytes(&[])).unwrap();
    assert!(read.entries.is_empty());
    assert!(read.failure.is_none());
}

#[test]
fn rooted_entry_names_replace_the_destination() {
    let dest = FsPath::from_parts("/".to_string(), vec!["d".to_string()]);
    let entries = vec![entry("/x/a.txt", b"a"), entry("/etc/", b""), entry("/top", b"t")];
    let steps = plan_extraction(&dest, &entries);
    assert_eq!(
        describe(&steps),
        vec!["dir /x", "file /x/a.txt <- 0", "dir /etc", "dir /", "file /top <- 2"]
    );
}

#[test]
fn rooted_entry_names_keep_the_drive() {
    let dest = FsPath::from_parts("C:\\".to_string(), vec!["d".to_string()]);
    let steps = plan_extraction(&dest, &vec![entry("/x", b"a")]);
    assert_eq!(describe(&steps), vec!["dir C:/", "file C:/x <- 0"]);
    assert_eq!(root_for_rooted_name(&"C:\\".to_string()), "C:/");
    assert_eq!(root_for_rooted_name(&"/".to_string()), "/");
    assert_eq!(root_for_rooted_name(&"".to_string()), "/");
    assert_eq!(root_for_rooted_name(&"\\\\server\\share\\".to_string()), "\\\\server\\share/");
}

#[test]
fn unreadable_archive_message_carries_the_error_text() {
    match read_zip(b"PK\x03\x04 broken".to_vec()) {
        Err(m) => {
            assert!(m.starts_with("Invalid zip archive: "));
            assert!(m.len() > "Invalid zip archive: ".len());
        }
        Ok(_) => panic!("broken archive accepted"),
    }
}
