//! The PowerShell commands that start the updater elevated and create the
//! desktop shortcut, with the quoting of the paths inside them.

use vstd::prelude::*;
use crate::text::{chars_of, push_char};

verus! {

/// What one character becomes inside a quoted path of the updater command:
/// `\` is doubled and `'` is doubled, every other character stays.
pub open spec fn launch_piece(c: char) -> Seq<char> {
    if c == '\\' {
        seq!['\\', '\\']
    } else if c == '\'' {
        seq!['\'', '\'']
    } else {
        seq![c]
    }
}

/// `s` with every `\` and every `'` doubled (`.replace('\\', "\\\\")` then
/// `.replace('\'', "''")`).
pub open spec fn escape_for_launch(s: Seq<char>) -> Seq<char>
    decreases s.len(),
{
    if s.len() == 0 {
        Seq::empty()
    } else {
        launch_piece(s[0]) + escape_for_launch(s.drop_first())
    }
}

/// The inverse of [`escape_for_launch`]: each doubled `\` or `'` read as one.
pub open spec fn unescape_launch(s: Seq<char>) -> Seq<char>
    decreases s.len(),
{
    if s.len() >= 2 && s[0] == '\\' && s[1] == '\\' {
        seq!['\\'] + unescape_launch(s.skip(2))
    } else if s.len() >= 2 && s[0] == '\'' && s[1] == '\'' {
        seq!['\''] + unescape_launch(s.skip(2))
    } else if s.len() > 0 {
        seq![s[0]] + unescape_launch(s.drop_first())
    } else {
        Seq::empty()
    }
}

/// What one character becomes inside a quoted path of the shortcut command:
/// `\` is doubled, every other character stays.
pub open spec fn backslash_piece(c: char) -> Seq<char> {
    if c == '\\' {
        seq!['\\', '\\']
    } else {
        seq![c]
    }
}

/// `s` with every `\` doubled (`.replace('\\', "\\\\")`).
pub open spec fn double_backslashes(s: Seq<char>) -> Seq<char>
    decreases s.len(),
{
    if s.len() == 0 {
        Seq::empty()
    } else {
        backslash_piece(s[0]) + double_backslashes(s.drop_first())
    }
}

/// The command that starts the updater at `path` in `workdir` with elevation.
pub open spec fn updater_launch_command(path: Seq<char>, workdir: Seq<char>) -> Seq<char> {
    "Start-Process -FilePath '"@ + escape_for_launch(path) + "' -WorkingDirectory '"@
        + escape_for_launch(workdir) + "' -Verb RunAs"@
}

/// The command that creates the desktop shortcut `<exe_name>.lnk` to `target`,
/// started in `workdir`.
pub open spec fn shortcut_command(exe_name: Seq<char>, target: Seq<char>, workdir: Seq<char>) -> Seq<char> {
    "$ws = New-Object -ComObject WScript.Shell; $desktop=[Environment]::GetFolderPath('Desktop'); $shortcut=$ws.CreateShortcut((Join-Path $desktop '"@
        + exe_name + ".lnk')); $shortcut.TargetPath='"@ + double_backslashes(target)
        + "'; $shortcut.WorkingDirectory='"@ + double_backslashes(workdir) + "'; $shortcut.Save()"@
}

// ---------------------------------------------------------------------------
// Lemmas

proof fn lemma_escape_push(a: Seq<char>, c: char)
    ensures
        escape_for_launch(a.push(c)) == escape_for_launch(a) + launch_piece(c),
    decreases a.len(),
{
    if a.len() == 0 {
        assert(a.push(c).drop_first() =~= Seq::<char>::empty());
        assert(escape_for_launch(Seq::<char>::empty()) == Seq::<char>::empty());
        assert(a.push(c)[0] == c);
        assert(escape_for_launch(a.push(c)) =~= launch_piece(c));
    } else {
        assert(a.push(c).drop_first() =~= a.drop_first().push(c));
        lemma_escape_push(a.drop_first(), c);
        assert(escape_for_launch(a.push(c)) =~= escape_for_launch(a) + launch_piece(c));
    }
}

proof fn lemma_double_push(a: Seq<char>, c: char)
    ensures
        double_backslashes(a.push(c)) == double_backslashes(a) + backslash_piece(c),
    decreases a.len(),
{
    if a.len() == 0 {
        assert(a.push(c).drop_first() =~= Seq::<char>::empty());
        assert(double_backslashes(Seq::<char>::empty()) == Seq::<char>::empty());
        assert(a.push(c)[0] == c);
        assert(double_backslashes(a.push(c)) =~= backslash_piece(c));
    } else {
        assert(a.push(c).drop_first() =~= a.drop_first().push(c));
        lemma_double_push(a.drop_first(), c);
        assert(double_backslashes(a.push(c)) =~= double_backslashes(a) + backslash_piece(c));
    }
}

// ---------------------------------------------------------------------------
// Laws

/// Quoting a path for the updater command loses nothing: reading each
/// doubled `\` and `'` back as one gives the path again.
pub proof fn law_launch_escape_roundtrip(s: Seq<char>)
    ensures
        unescape_launch(escape_for_launch(s)) == s,
    decreases s.len(),
{
    if s.len() > 0 {
        law_launch_escape_roundtrip(s.drop_first());
        let e = escape_for_launch(s);
        let rest = escape_for_launch(s.drop_first());
        let c = s[0];
        if c == '\\' || c == '\'' {
            assert(e.skip(2) =~= rest);
        } else {
            assert(e.drop_first() =~= rest);
        }
        assert(s =~= seq![c] + s.drop_first());
    }
}

// ---------------------------------------------------------------------------
// Executable code

/// `s` with every `\` and `'` doubled.
pub fn escape_launch_path(s: &str) -> (r: String)
    ensures
        r@ == escape_for_launch(s@),
{
    let v = chars_of(s);
    let mut r = String::new();
    let mut i: usize = 0;
    assert(v@.take(0) =~= Seq::<char>::empty());
    while i < v.len()
        invariant
            v@ == s@,
            i <= v.len(),
            r@ == escape_for_launch(v@.take(i as int)),
        decreases v.len() - i,
    {
        let c = v[i];
        proof {
            assert(v@.take(i + 1) =~= v@.take(i as int).push(c));
            lemma_escape_push(v@.take(i as int), c);
        }
        if c == '\\' {
            push_char(&mut r, '\\');
            push_char(&mut r, '\\');
        } else if c == '\'' {
            push_char(&mut r, '\'');
            push_char(&mut r, '\'');
        } else {
            push_char(&mut r, c);
        }
        assert(r@ =~= escape_for_launch(v@.take(i + 1)));
        i = i + 1;
    }
    assert(v@.take(v.len() as int) =~= v@);
    r
}

/// `s` with every `\` doubled.
pub fn double_backslashes_in(s: &str) -> (r: String)
    ensures
        r@ == double_backslashes(s@),
{
    let v = chars_of(s);
    let mut r = String::new();
    let mut i: usize = 0;
    assert(v@.take(0) =~= Seq::<char>::empty());
    while i < v.len()
        invariant
            v@ == s@,
            i <= v.len(),
            r@ == double_backslashes(v@.take(i as int)),
        decreases v.len() - i,
    {
        let c = v[i];
        proof {
            assert(v@.take(i + 1) =~= v@.take(i as int).push(c));
            lemma_double_push(v@.take(i as int), c);
        }
        if c == '\\' {
            push_char(&mut r, '\\');
            push_char(&mut r, '\\');
        } else {
            push_char(&mut r, c);
        }
        assert(r@ =~= double_backslashes(v@.take(i + 1)));
        i = i + 1;
    }
    assert(v@.take(v.len() as int) =~= v@);
    r
}

/// The PowerShell command that starts the updater at `path` in `workdir`
/// with elevation.
pub fn updater_launch_script(path: &str, workdir: &str) -> (r: String)
    ensures
        r@ == updater_launch_command(path@, workdir@),
{
    let mut r = String::from_str("Start-Process -FilePath '");
    let p = escape_launch_path(path);
    r.append(p.as_str());
    r.append("' -WorkingDirectory '");
    let w = escape_launch_path(workdir);
    r.append(w.as_str());
    r.append("' -Verb RunAs");
    r
}

/// The PowerShell command that creates the desktop shortcut
/// `<exe_name>.lnk` to `target`, started in `workdir`.
pub fn shortcut_script(exe_name: &str, target: &str, workdir: &str) -> (r: String)
    ensures
        r@ == shortcut_command(exe_name@, target@, workdir@),
{
    let mut r = String::from_str(
        "$ws = New-Object -ComObject WScript.Shell; $desktop=[Environment]::GetFolderPath('Desktop'); $shortcut=$ws.CreateShortcut((Join-Path $desktop '",
    );
    r.append(exe_name);
    r.append(".lnk')); $shortcut.TargetPath='");
    let t = double_backslashes_in(target);
    r.append(t.as_str());
    r.append("'; $shortcut.WorkingDirectory='");
    let w = double_backslashes_in(workdir);
    r.append(w.as_str());
    r.append("'; $shortcut.Save()");
    r
}

/// The file name of the desktop shortcut for the executable `exe_name`.
pub fn shortcut_file_name(exe_name: &str) -> (r: String)
    ensures
        r@ == exe_name@ + ".lnk"@,
{
    let mut r = String::from_str(exe_name);
    r.append(".lnk");
    r
}

} // verus!
