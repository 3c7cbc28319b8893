use fixmanager::unlock::{UnlockAction, UnlockWait};
use fixmanager::text::{str_eq_ignore_ascii_case, str_ends_with_ignore_ascii_case, str_is_blank, trim_string};

#[test]
fn trimming_removes_unicode_whitespace() {
    assert_eq!(trim_string("\u{a0} a b \u{3000}\n"), "a b");
    assert_eq!(trim_string("   "), "");
    assert_eq!(trim_string("x"), "x");
    let s = "\u{2003}\tmixed\u{85}";
    assert_eq!(trim_string(s), s.trim());
}

#[test]
fn blank_strings() {
    assert!(str_is_blank(""));
    assert!(str_is_blank(" \t\r\n"));
    assert!(!str_is_blank(" . "));
}

#[test]
fn ascii_case_comparisons() {
    assert!(str_eq_ignore_ascii_case("Update.EXE", "update.exe"));
    assert!(!str_eq_ignore_ascii_case("update.exe", "update.ex"));
    assert!(!str_eq_ignore_ascii_case("É", "é"));
    assert!(str_ends_with_ignore_ascii_case("tool.EXE", ".exe"));
    assert!(!str_ends_with_ignore_ascii_case("exe", ".exe"));
}

#[test]
fn unlock_wait_gives_up_after_sixty_attempts() {
    let (mut w, mut a) = UnlockWait::start();
    let mut sleeps = 0;
    loop {
        let r = match a {
            UnlockAction::CheckExists => w.exists_checked(true),
            UnlockAction::TryRename => w.rename_tried(false),
            UnlockAction::Sleep => {
                sleeps += 1;
                w.slept()
            }
            UnlockAction::Done => break,
        };
        w = r.0;
        a = r.1;
    }
    assert_eq!(sleeps, 60);
}

#[test]
fn unlock_wait_stops_when_free() {
    let (w, _) = UnlockWait::start();
    let (w, a) = w.exists_checked(true);
    assert!(matches!(a, UnlockAction::TryRename));
    let (_, a) = w.rename_tried(true);
    assert!(matches!(a, UnlockAction::Done));
    let (w, _) = UnlockWait::start();
    let (_, a) = w.exists_checked(false);
    assert!(matches!(a, UnlockAction::Done));
}
