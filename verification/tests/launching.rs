use fixmanager::launch::{double_backslashes_in, escape_launch_path, shortcut_file_name, shortcut_script, updater_launch_script};

#[test]
fn launch_paths_double_backslashes_and_quotes() {
    assert_eq!(escape_launch_path("C:\\Bob's\\app"), "C:\\\\Bob''s\\\\app");
    assert_eq!(escape_launch_path(""), "");
    assert_eq!(escape_launch_path("plain"), "plain");
}

#[test]
fn shortcut_paths_double_backslashes_only() {
    assert_eq!(double_backslashes_in("C:\\a'b"), "C:\\\\a'b");
}

#[test]
fn updater_launch_command() {
    assert_eq!(
        updater_launch_script("C:\\App\\update.exe", "C:\\App"),
        "Start-Process -FilePath 'C:\\\\App\\\\update.exe' -WorkingDirectory 'C:\\\\App' -Verb RunAs"
    );
}

#[test]
fn shortcut_command_and_name() {
    assert_eq!(
        shortcut_script("fixmanager", "C:\\App\\fixmanager.exe", "C:\\App"),
        "$ws = New-Object -ComObject WScript.Shell; $desktop=[Environment]::GetFolderPath('Desktop'); $shortcut=$ws.CreateShortcut((Join-Path $desktop 'fixmanager.lnk')); $shortcut.TargetPath='C:\\\\App\\\\fixmanager.exe'; $shortcut.WorkingDirectory='C:\\\\App'; $shortcut.Save()"
    );
    assert_eq!(shortcut_file_name("fixmanager"), "fixmanager.lnk");
}
