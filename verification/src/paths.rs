//! Where the manager keeps its files, and the folders it searches for a
//! game's mod folder. A path is held as its sequence of components; the
//! application joins them with the platform's separator.

use vstd::prelude::*;
use crate::games::GameInfo;
use crate::text::{opt_view, str_equals};

verus! {

/// A file system path: its root (a drive prefix and root separator, such as
/// `/` or `C:\\`, or empty for a relative path) and the components that
/// follow it (`..` and `.` stand for the parent and current folder).
pub struct FsPath {
    pub root: String,
    pub parts: Vec<String>,
}

/// The contents of an [`FsPath`].
pub struct PathView {
    pub root: Seq<char>,
    pub parts: Seq<Seq<char>>,
}

/// `p` with the component `name` appended.
pub open spec fn path_push(p: PathView, name: Seq<char>) -> PathView {
    PathView { root: p.root, parts: p.parts.push(name) }
}

/// The final component of `p` when it names a file or folder
/// (`Path::file_name`): none for a path without components or one that ends
/// in `.` or `..`.
pub open spec fn path_file_name(p: PathView) -> Option<Seq<char>> {
    if p.parts.len() == 0 || p.parts.last() == "."@ || p.parts.last() == ".."@ {
        None
    } else {
        Some(p.parts.last())
    }
}

/// The components of a list of strings.
pub open spec fn part_views(v: Seq<String>) -> Seq<Seq<char>> {
    v.map_values(|s: String| s@)
}

impl View for FsPath {
    type V = PathView;

    open spec fn view(&self) -> PathView {
        PathView { root: self.root@, parts: part_views(self.parts@) }
    }
}

/// The components of an optional path.
pub open spec fn opt_path_view(p: Option<FsPath>) -> Option<PathView> {
    match p {
        Some(q) => Some(q@),
        None => None,
    }
}

/// The folders searched for a game's mod folder, in order: the home folder
/// with its `Desktop`, `Documents`, `Downloads`, `Games` and
/// `Documents/My Games`; the documents folder with its `My Games`; the
/// desktop folder. A folder that is not known is left out with the ones
/// built on it.
pub open spec fn discovery_root_views(
    home: Option<PathView>,
    documents: Option<PathView>,
    desktop: Option<PathView>,
) -> Seq<PathView> {
    let from_home = match home {
        Some(h) => seq![
            h,
            path_push(h, "Desktop"@),
            path_push(h, "Documents"@),
            path_push(h, "Downloads"@),
            path_push(h, "Games"@),
            path_push(path_push(h, "Documents"@), "My Games"@),
        ],
        None => Seq::empty(),
    };
    let from_documents = match documents {
        Some(d) => seq![d, path_push(d, "My Games"@)],
        None => Seq::empty(),
    };
    let from_desktop = match desktop {
        Some(k) => seq![k],
        None => Seq::empty(),
    };
    from_home + from_documents + from_desktop
}

/// The views of a list of paths.
pub open spec fn path_views(v: Seq<FsPath>) -> Seq<PathView> {
    v.map_values(|p: FsPath| p@)
}

impl FsPath {
    /// The path with the root `root` and the components `parts`.
    pub fn from_parts(root: String, parts: Vec<String>) -> (p: FsPath)
        ensures
            p@ == (PathView { root: root@, parts: part_views(parts@) }),
    {
        FsPath { root, parts }
    }

    /// A copy of the path.
    pub fn duplicate(&self) -> (p: FsPath)
        ensures
            p@ == self@,
    {
        let mut parts: Vec<String> = Vec::new();
        let mut i: usize = 0;
        while i < self.parts.len()
            invariant
                i <= self.parts.len(),
                part_views(parts@) == self@.parts.take(i as int),
            decreases self.parts.len() - i,
        {
            let ghost prev = part_views(parts@);
            parts.push(self.parts[i].clone());
            assert(self@.parts[i as int] == self.parts@[i as int]@);
            assert(part_views(parts@) =~= prev.push(self@.parts[i as int]));
            assert(part_views(parts@) =~= self@.parts.take(i + 1));
            i = i + 1;
        }
        assert(self@.parts.take(self.parts.len() as int) =~= self@.parts);
        FsPath { root: self.root.clone(), parts }
    }

    /// The path with `name` appended as its last component (`Path::join`
    /// with a single relative component).
    pub fn join(&self, name: &str) -> (p: FsPath)
        ensures
            p@ == path_push(self@, name@),
    {
        let mut p = self.duplicate();
        p.parts.push(String::from_str(name));
        assert(p@.parts =~= self@.parts.push(name@));
        p
    }

    /// The name of the file or folder the path ends in (see
    /// [`path_file_name`]).
    pub fn file_name(&self) -> (r: Option<String>)
        ensures
            opt_view(r) == path_file_name(self@),
    {
        let n = self.parts.len();
        if n == 0 {
            return None;
        }
        let last = &self.parts[n - 1];
        assert(self@.parts.last() == last@);
        if str_equals(last.as_str(), ".") || str_equals(last.as_str(), "..") {
            None
        } else {
            Some(last.clone())
        }
    }
}

/// The settings file in the base folder `base`.
pub fn config_path(base: &FsPath) -> (p: FsPath)
    ensures
        p@ == path_push(base@, "config.json"@),
{
    base.join("config.json")
}

/// The resources folder in the base folder `base`.
pub fn resources_dir(base: &FsPath) -> (p: FsPath)
    ensures
        p@ == path_push(base@, "resources"@),
{
    base.join("resources")
}

/// The folder that holds the scripts of `game`, in the base folder `base`.
pub fn game_scripts_dir(base: &FsPath, game: &GameInfo) -> (p: FsPath)
    ensures
        p@ == path_push(path_push(base@, "resources"@), game.subfolder@),
{
    resources_dir(base).join(game.subfolder.as_str())
}

/// The bundled Python interpreter in the base folder `base`.
pub fn embedded_python_path(base: &FsPath) -> (p: FsPath)
    ensures
        p@ == path_push(path_push(base@, "python-3.15.0a1-embed-amd64"@), "python.exe"@),
{
    base.join("python-3.15.0a1-embed-amd64").join("python.exe")
}

/// The folders searched for a game's mod folder (see
/// [`discovery_root_views`]).
pub fn discovery_roots(home: Option<FsPath>, documents: Option<FsPath>, desktop: Option<FsPath>) -> (r: Vec<FsPath>)
    ensures
        path_views(r@) == discovery_root_views(opt_path_view(home), opt_path_view(documents), opt_path_view(desktop)),
{
    let mut r: Vec<FsPath> = Vec::new();
    if let Some(h) = home {
        let desk = h.join("Desktop");
        let docs = h.join("Documents");
        let down = h.join("Downloads");
        let games = h.join("Games");
        let my_games = docs.join("My Games");
        r.push(h);
        r.push(desk);
        r.push(docs);
        r.push(down);
        r.push(games);
        r.push(my_games);
    }
    if let Some(d) = documents {
        let my_games = d.join("My Games");
        r.push(d);
        r.push(my_games);
    }
    if let Some(k) = desktop {
        r.push(k);
    }
    assert(path_views(r@) =~= discovery_root_views(opt_path_view(home), opt_path_view(documents), opt_path_view(desktop)));
    r
}

} // verus!
