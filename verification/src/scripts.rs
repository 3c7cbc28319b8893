//! Scripts: which files count as scripts, listing them in order, importing
//! them into a game's folder, and the decisions around running one.

use vstd::prelude::*;
use crate::games::{find_game, is_known_key, GameInfo, known_games};
use crate::numbers::{decimal, push_decimal, push_signed_decimal, signed_decimal};
use crate::order::{lemma_seq_lt_transitive, text_less, text_lt};
use crate::text::{
    chars_of, eq_ignore_ascii_case, has_suffix, lowercase_of, opt_view, str_ends_with,
    str_eq_ignore_ascii_case, str_equals, string_from_chars, to_lowercase, trim, trim_bounds,
};

verus! {

/// The index of the last `c` in `s`, if any.
pub open spec fn last_index_of(s: Seq<char>, c: char) -> Option<int>
    decreases s.len(),
{
    if s.len() == 0 {
        None
    } else if s.last() == c {
        Some(s.len() - 1)
    } else {
        last_index_of(s.drop_last(), c)
    }
}

/// The extension of the file name `name`, as `Path::extension` gives it: what
/// follows the last `.`, unless that dot is the first character (a hidden
/// file such as `.profile` has none) or there is no dot; `..` has none.
pub open spec fn file_extension(name: Seq<char>) -> Option<Seq<char>> {
    if name == seq!['.', '.'] {
        None
    } else {
        match last_index_of(name, '.') {
            Some(i) => if i == 0 {
                None
            } else {
                Some(name.subrange(i + 1, name.len() as int))
            },
            None => None,
        }
    }
}

/// A file that the script list shows: its extension, lowercased, is `py` or
/// `exe`.
pub open spec fn is_listed_script(name: Seq<char>) -> bool {
    match file_extension(name) {
        Some(e) => lowercase_of(e) == "py"@ || lowercase_of(e) == "exe"@,
        None => false,
    }
}

/// A file that can be imported as a script: its extension is `py` or `exe`,
/// ASCII case ignored.
pub open spec fn is_importable_script(name: Seq<char>) -> bool {
    match file_extension(name) {
        Some(e) => eq_ignore_ascii_case(e, "py"@) || eq_ignore_ascii_case(e, "exe"@),
        None => false,
    }
}

/// The names that the script list shows, in their original order.
pub open spec fn listed_scripts(names: Seq<Seq<char>>) -> Seq<Seq<char>>
    decreases names.len(),
{
    if names.len() == 0 {
        names
    } else {
        let rest = listed_scripts(names.drop_last());
        if is_listed_script(names.last()) {
            rest.push(names.last())
        } else {
            rest
        }
    }
}

/// `s` is in ascending string order.
pub open spec fn is_sorted(s: Seq<Seq<char>>) -> bool {
    forall|i: int, j: int| 0 <= i < j < s.len() ==> !text_lt(#[trigger] s[j], #[trigger] s[i])
}

/// The contents of a list of strings.
pub open spec fn texts(v: Seq<String>) -> Seq<Seq<char>> {
    v.map_values(|s: String| s@)
}

/// The name of a script is a Python script: lowercased, it ends with `.py`.
pub open spec fn is_python_script(name: Seq<char>) -> bool {
    has_suffix(lowercase_of(name), ".py"@)
}

/// How many files an import copied and how many it passed over.
pub struct ImportTally {
    pub imported: usize,
    pub skipped: usize,
}

/// What an import does with one of the files it was given.
pub enum ImportStep {
    /// Copy the file under this name into the game's script folder.
    Copy(String),
    /// Pass over the file.
    Skip,
}

/// The report of an import into `game_name` that copied `imported` files and
/// passed over `skipped`; an import that copied nothing fails.
pub open spec fn import_outcome(game_name: Seq<char>, imported: nat, skipped: nat) -> Result<Seq<char>, Seq<char>> {
    if imported == 0 {
        Err("No valid .py or .exe files were imported."@)
    } else {
        let suffix = if skipped > 0 {
            " ("@ + decimal(skipped) + " skipped)"@
        } else {
            Seq::<char>::empty()
        };
        Ok("Imported "@ + decimal(imported) + " file(s) to "@ + game_name + suffix)
    }
}

// ---------------------------------------------------------------------------
// Laws

/// An import fails exactly when it copied no file, whatever it passed over;
/// otherwise it reports the number copied and the game, and the number
/// passed over where there was any.
pub proof fn law_import_report(game_name: Seq<char>, imported: nat, skipped: nat, other_skipped: nat)
    ensures
        import_outcome(game_name, imported, skipped) is Err <==> imported == 0,
        (import_outcome(game_name, imported, skipped) is Ok) == (import_outcome(game_name, imported, other_skipped) is Ok),
        imported == 0 ==> import_outcome(game_name, imported, skipped) == Err::<Seq<char>, Seq<char>>(
            "No valid .py or .exe files were imported."@,
        ),
        imported > 0 && skipped == 0 ==> import_outcome(game_name, imported, skipped) == Ok::<Seq<char>, Seq<char>>(
            "Imported "@ + decimal(imported) + " file(s) to "@ + game_name,
        ),
        imported > 0 && skipped > 0 ==> import_outcome(game_name, imported, skipped) == Ok::<Seq<char>, Seq<char>>(
            "Imported "@ + decimal(imported) + " file(s) to "@ + game_name + " ("@ + decimal(skipped) + " skipped)"@,
        ),
{
    if imported > 0 && skipped == 0 {
        assert("Imported "@ + decimal(imported) + " file(s) to "@ + game_name + Seq::<char>::empty()
            =~= "Imported "@ + decimal(imported) + " file(s) to "@ + game_name);
    }
    if imported > 0 && skipped > 0 {
        assert("Imported "@ + decimal(imported) + " file(s) to "@ + game_name + (" ("@ + decimal(skipped) + " skipped)"@)
            =~= "Imported "@ + decimal(imported) + " file(s) to "@ + game_name + " ("@ + decimal(skipped) + " skipped)"@);
    }
}

/// A script list in ascending order compares names character by character:
/// of two names that agree on their first `k` characters, the one listed
/// first has the smaller or equal character at `k`, and a name listed first
/// is never a longer extension of one listed after it.
pub proof fn law_sorted_scripts_in_string_order(s: Seq<Seq<char>>, i: int, j: int, k: int)
    requires
        is_sorted(s),
        0 <= i < j < s.len(),
    ensures
        0 <= k < s[i].len() && k < s[j].len() && s[i].take(k) == s[j].take(k) ==> (s[i][k] as u32) <= (s[j][k] as u32),
        !(s[j].len() < s[i].len() && s[i].take(s[j].len() as int) == s[j]),
{
    assert(!text_lt(s[j], s[i]));
    if 0 <= k < s[i].len() && k < s[j].len() && s[i].take(k) == s[j].take(k) && (s[j][k] as u32) < (s[i][k] as u32) {
        crate::order::law_text_order_first_difference(s[j], s[i], k);
    }
    if s[j].len() < s[i].len() && s[i].take(s[j].len() as int) == s[j] {
        crate::order::law_text_order_prefix_first(s[j], s[i]);
    }
}

// ---------------------------------------------------------------------------
// Lemmas

proof fn lemma_last_index_of(s: Seq<char>, c: char, k: int)
    requires
        -1 <= k < s.len(),
        forall|j: int| k < j < s.len() ==> #[trigger] s[j] != c,
        k == -1 || s[k] == c,
    ensures
        last_index_of(s, c) == (if k == -1 { None::<int> } else { Some(k) }),
    decreases s.len(),
{
    if s.len() > 0 && k < s.len() - 1 {
        assert forall|j: int| k < j < s.drop_last().len() implies #[trigger] s.drop_last()[j] != c by {
            assert(s.drop_last()[j] == s[j]);
        }
        lemma_last_index_of(s.drop_last(), c, k);
    }
}

/// The listed names are exactly the listed scripts among `names`.
proof fn lemma_listed_step(names: Seq<Seq<char>>, i: int)
    requires
        0 <= i < names.len(),
    ensures
        listed_scripts(names.take(i + 1)) == (if is_listed_script(names[i]) {
            listed_scripts(names.take(i)).push(names[i])
        } else {
            listed_scripts(names.take(i))
        }),
{
    assert(names.take(i + 1).drop_last() =~= names.take(i));
}

// ---------------------------------------------------------------------------
// Executable code

/// The extension of the file name `name` (see [`file_extension`]).
pub fn extension_of(name: &str) -> (r: Option<String>)
    ensures
        opt_view(r) == file_extension(name@),
{
    let v = chars_of(name);
    if v.len() == 2 && v[0] == '.' && v[1] == '.' {
        assert(v@ =~= seq!['.', '.']);
        return None;
    }
    assert(v@ != seq!['.', '.']) by {
        if v@ == seq!['.', '.'] {
            assert(v@.len() == 2 && v@[0] == '.' && v@[1] == '.');
        }
    }
    let mut i: usize = v.len();
    while i > 0 && v[i - 1] != '.'
        invariant
            i <= v.len(),
            forall|j: int| i <= j < v.len() ==> #[trigger] v@[j] != '.',
        decreases i,
    {
        i = i - 1;
    }
    proof {
        lemma_last_index_of(v@, '.', i - 1);
    }
    if i <= 1 {
        None
    } else {
        Some(string_from_chars(&v, i, v.len()))
    }
}

/// Whether the lowercased extension `lowered` is that of a script: `py` or
/// `exe`.
pub fn is_script_extension(lowered: &str) -> (r: bool)
    ensures
        r == (lowered@ == "py"@ || lowered@ == "exe"@),
{
    str_equals(lowered, "py") || str_equals(lowered, "exe")
}

/// Whether the script list shows the file `name`.
pub fn lists_as_script(name: &str) -> (r: bool)
    ensures
        r == is_listed_script(name@),
{
    match extension_of(name) {
        Some(e) => {
            let lowered = to_lowercase(e.as_str());
            is_script_extension(lowered.as_str())
        },
        None => false,
    }
}

/// The scripts among the file names `names`, in ascending order.
pub fn select_scripts(names: &Vec<String>) -> (r: Vec<String>)
    ensures
        is_sorted(texts(r@)),
        texts(r@).to_multiset() == listed_scripts(texts(names@)).to_multiset(),
{
    broadcast use vstd::seq_lib::group_to_multiset_ensures;

    let mut out: Vec<String> = Vec::new();
    let mut i: usize = 0;
    assert(texts(names@).take(0) =~= Seq::<Seq<char>>::empty());
    assert(texts(out@) =~= Seq::<Seq<char>>::empty());
    while i < names.len()
        invariant
            i <= names.len(),
            is_sorted(texts(out@)),
            texts(out@).to_multiset() == listed_scripts(texts(names@).take(i as int)).to_multiset(),
        decreases names.len() - i,
    {
        proof {
            lemma_listed_step(texts(names@), i as int);
        }
        let name = &names[i];
        assert(texts(names@)[i as int] == name@);
        if lists_as_script(name.as_str()) {
            let mut j: usize = 0;
            while j < out.len() && !text_less(name.as_str(), out[j].as_str())
                invariant
                    j <= out.len(),
                    forall|k: int| 0 <= k < j ==> !text_lt(name@, #[trigger] texts(out@)[k]),
                decreases out.len() - j,
            {
                assert(texts(out@)[j as int] == out@[j as int]@);
                j = j + 1;
            }
            let ghost old_t = texts(out@);
            proof {
                if j < out.len() {
                    assert(old_t[j as int] == out@[j as int]@);
                }
            }
            out.insert(j, name.clone());
            proof {
                let t = texts(out@);
                assert(t =~= old_t.insert(j as int, name@));
                old_t.insert_ensures(j as int, name@);
                vstd::seq_lib::to_multiset_insert(old_t, j as int, name@);
                let pre = listed_scripts(texts(names@).take(i as int));
                vstd::seq_lib::to_multiset_build(pre, name@);
                assert(t.to_multiset() =~= old_t.to_multiset().insert(name@));
                assert(listed_scripts(texts(names@).take(i + 1)) == pre.push(name@));
                assert forall|a: int, b: int| 0 <= a < b < t.len() implies !text_lt(#[trigger] t[b], #[trigger] t[a]) by {
                    if b < j {
                        assert(t[a] == old_t[a] && t[b] == old_t[b]);
                    } else if b == j {
                        assert(t[a] == old_t[a]);
                    } else if a == j {
                        assert(t[b] == old_t[b - 1]);
                        // name < old_t[j] <= old_t[b - 1]
                        if b - 1 > j {
                            if text_lt(old_t[b - 1], name@) {
                                lemma_seq_lt_transitive(
                                    crate::order::codes(old_t[b - 1]),
                                    crate::order::codes(name@),
                                    crate::order::codes(old_t[j as int]),
                                );
                            }
                        } else {
                            crate::order::lemma_seq_lt_asymmetric(
                                crate::order::codes(name@),
                                crate::order::codes(old_t[j as int]),
                            );
                        }
                    } else if a < j {
                        assert(t[a] == old_t[a] && t[b] == old_t[b - 1]);
                    } else {
                        assert(t[a] == old_t[a - 1] && t[b] == old_t[b - 1]);
                    }
                }
            }
        }
        i = i + 1;
    }
    assert(texts(names@).take(names.len() as int) =~= texts(names@));
    out
}

/// The game an import targets, or the message to fail with: the key must
/// name a game and at least one file must be given.
pub fn start_import(game_key: &str, file_count: usize) -> (r: Result<GameInfo, String>)
    ensures
        match r {
            Ok(g) => is_known_key(game_key@) && file_count > 0 && g@.key == game_key@ && known_games().contains(g@),
            Err(m) => if !is_known_key(game_key@) {
                m@ == "Unknown game key: "@ + game_key@
            } else {
                file_count == 0 && m@ == "No files were provided."@
            },
        },
{
    match find_game(game_key) {
        Some(g) => {
            if file_count == 0 {
                Err(String::from_str("No files were provided."))
            } else {
                Ok(g)
            }
        },
        None => Err(unknown_game_message(game_key)),
    }
}

/// `Unknown game key: <key>`.
pub fn unknown_game_message(game_key: &str) -> (m: String)
    ensures
        m@ == "Unknown game key: "@ + game_key@,
{
    let mut m = String::from_str("Unknown game key: ");
    m.append(game_key);
    m
}

/// What an import does with a source file: copy it under its file name when
/// it is an existing regular file with a `py` or `exe` extension (ASCII case
/// ignored); otherwise pass over it.
pub fn import_step(is_file: bool, file_name: Option<String>) -> (r: ImportStep)
    ensures
        match r {
            ImportStep::Copy(n) => is_file && (file_name matches Some(f) && n@ == f@ && is_importable_script(f@)),
            ImportStep::Skip => !is_file || match file_name {
                Some(f) => !is_importable_script(f@),
                None => true,
            },
        },
{
    if !is_file {
        return ImportStep::Skip;
    }
    match file_name {
        Some(f) => {
            let supported = match extension_of(f.as_str()) {
                Some(e) => str_eq_ignore_ascii_case(e.as_str(), "py") || str_eq_ignore_ascii_case(e.as_str(), "exe"),
                None => false,
            };
            if supported {
                ImportStep::Copy(f)
            } else {
                ImportStep::Skip
            }
        },
        None => ImportStep::Skip,
    }
}

impl ImportTally {
    /// No file seen yet.
    pub fn new() -> (t: ImportTally)
        ensures
            t.imported == 0,
            t.skipped == 0,
    {
        ImportTally { imported: 0, skipped: 0 }
    }

    /// Counts one more file as copied (`copied`) or passed over.
    pub fn record(&mut self, copied: bool)
        requires
            old(self).imported + old(self).skipped < usize::MAX,
        ensures
            copied ==> final(self).imported == old(self).imported + 1 && final(self).skipped == old(self).skipped,
            !copied ==> final(self).skipped == old(self).skipped + 1 && final(self).imported == old(self).imported,
    {
        if copied {
            self.imported = self.imported + 1;
        } else {
            self.skipped = self.skipped + 1;
        }
    }

    /// The report of the import into `game_name` (see [`import_outcome`]).
    pub fn outcome(&self, game_name: &str) -> (r: Result<String, String>)
        ensures
            match (r, import_outcome(game_name@, self.imported as nat, self.skipped as nat)) {
                (Ok(a), Ok(b)) => a@ == b,
                (Err(a), Err(b)) => a@ == b,
                _ => false,
            },
    {
        if self.imported == 0 {
            return Err(String::from_str("No valid .py or .exe files were imported."));
        }
        let mut m = String::from_str("Imported ");
        push_decimal(&mut m, self.imported as u64);
        m.append(" file(s) to ");
        m.append(game_name);
        if self.skipped > 0 {
            m.append(" (");
            push_decimal(&mut m, self.skipped as u64);
            m.append(" skipped)");
        }
        proof {
            let suffix = if self.skipped > 0 {
                " ("@ + decimal(self.skipped as nat) + " skipped)"@
            } else {
                Seq::<char>::empty()
            };
            assert(m@ =~= "Imported "@ + decimal(self.imported as nat) + " file(s) to "@ + game_name@ + suffix);
        }
        Ok(m)
    }
}

/// The run folder given explicitly, trimmed, when it is not empty.
pub fn override_target(target_path_override: Option<String>) -> (r: Option<String>)
    ensures
        match target_path_override {
            Some(o) => if trim(o@).len() > 0 {
                opt_view(r) == Some(trim(o@))
            } else {
                r is None
            },
            None => r is None,
        },
{
    match target_path_override {
        Some(o) => {
            let v = chars_of(o.as_str());
            let (a, z) = trim_bounds(&v);
            if a < z {
                Some(string_from_chars(&v, a, z))
            } else {
                None
            }
        },
        None => None,
    }
}

/// The folder a script runs in, or the message to fail with when there is
/// none (`candidate` is the explicit folder or, failing that, the game's).
pub fn target_folder_or_error(candidate: Option<String>, game_name: &str) -> (r: Result<String, String>)
    ensures
        match candidate {
            Some(c) => r matches Ok(t) && t@ == c@,
            None => r matches Err(m) && m@ == "No mod folder found for "@ + game_name@
                + ". Select a run path or set a game mod folder in Settings."@,
        },
{
    match candidate {
        Some(c) => Ok(c),
        None => {
            let mut m = String::from_str("No mod folder found for ");
            m.append(game_name);
            m.append(". Select a run path or set a game mod folder in Settings.");
            Err(m)
        },
    }
}

/// Whether the lowercased script name `lowered` is a Python script.
pub fn is_python_lowered(lowered: &str) -> (r: bool)
    ensures
        r == has_suffix(lowered@, ".py"@),
{
    str_ends_with(lowered, ".py")
}

/// Whether the script `name` runs through Python (its lowercased name ends
/// with `.py`) rather than as an executable.
pub fn runs_with_python(name: &str) -> (r: bool)
    ensures
        r == is_python_script(name@),
{
    let lowered = to_lowercase(name);
    is_python_lowered(lowered.as_str())
}

/// The message of a script that exited with `code`, or with no code (then
/// reported as -1).
pub fn script_exit_message(code: Option<i32>) -> (m: String)
    ensures
        m@ == "Script exited with code "@ + signed_decimal(match code {
            Some(c) => c as int,
            None => -1,
        }),
{
    let c: i32 = match code {
        Some(c) => c,
        None => -1,
    };
    let mut m = String::from_str("Script exited with code ");
    push_signed_decimal(&mut m, c as i64);
    m
}

/// `Successfully ran <script>`.
pub fn script_ran_message(script_name: &str) -> (m: String)
    ensures
        m@ == "Successfully ran "@ + script_name@,
{
    let mut m = String::from_str("Successfully ran ");
    m.append(script_name);
    m
}

/// `Target folder does not exist: <folder>`.
pub fn missing_target_message(target_folder: &str) -> (m: String)
    ensures
        m@ == "Target folder does not exist: "@ + target_folder@,
{
    let mut m = String::from_str("Target folder does not exist: ");
    m.append(target_folder);
    m
}

/// `Script not found: <location>`.
pub fn script_not_found_message(location: &str) -> (m: String)
    ensures
        m@ == "Script not found: "@ + location@,
{
    let mut m = String::from_str("Script not found: ");
    m.append(location);
    m
}

} // verus!
