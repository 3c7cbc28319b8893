//! The manager's settings: theme, per-game mod folder overrides and the
//! release tags it last applied, with the rules that read and prune them.

use vstd::prelude::*;
use crate::games::{GameInfo, known_games, games, game_views};
use crate::text::{is_blank, opt_view, str_equals, str_is_blank, trim, trim_string};

verus! {

/// A mod folder chosen for one game, by the game's key.
pub struct GamePath {
    pub key: String,
    pub path: String,
}

/// The settings that the manager keeps between runs.
pub struct AppConfig {
    /// `light` or `dark`.
    pub mode: String,
    /// Mod folder overrides, at most one per game key.
    pub game_paths: Vec<GamePath>,
    pub last_updater_release_tag: Option<String>,
    pub last_app_release_tag: Option<String>,
    pub last_resources_tag: Option<String>,
}

/// The contents of an [`AppConfig`].
pub struct ConfigView {
    pub mode: Seq<char>,
    pub paths: Seq<(Seq<char>, Seq<char>)>,
    pub updater_tag: Option<Seq<char>>,
    pub app_tag: Option<Seq<char>>,
    pub resources_tag: Option<Seq<char>>,
}

/// The `(key, path)` pairs of a list of overrides.
pub open spec fn path_pairs(v: Seq<GamePath>) -> Seq<(Seq<char>, Seq<char>)> {
    v.map_values(|p: GamePath| (p.key@, p.path@))
}

impl View for AppConfig {
    type V = ConfigView;

    open spec fn view(&self) -> ConfigView {
        ConfigView {
            mode: self.mode@,
            paths: path_pairs(self.game_paths@),
            updater_tag: opt_view(self.last_updater_release_tag),
            app_tag: opt_view(self.last_app_release_tag),
            resources_tag: opt_view(self.last_resources_tag),
        }
    }
}

/// No key occurs twice among the overrides.
pub open spec fn distinct_keys(paths: Seq<(Seq<char>, Seq<char>)>) -> bool {
    forall|i: int, j: int|
        0 <= i < paths.len() && 0 <= j < paths.len() && i != j ==> #[trigger] paths[i].0
            != #[trigger] paths[j].0
}

impl AppConfig {
    /// The settings are well formed: each game key has at most one override.
    pub open spec fn wf(&self) -> bool {
        distinct_keys(self@.paths)
    }
}

/// `light`.
pub open spec fn light_mode() -> Seq<char> {
    seq!['l', 'i', 'g', 'h', 't']
}

/// `dark`.
pub open spec fn dark_mode() -> Seq<char> {
    seq!['d', 'a', 'r', 'k']
}

/// The settings of a first run: light theme, no overrides, no tags.
pub open spec fn default_config() -> ConfigView {
    ConfigView {
        mode: light_mode(),
        paths: Seq::empty(),
        updater_tag: None,
        app_tag: None,
        resources_tag: None,
    }
}

/// The override stored for `key`: the first pair with that key.
pub open spec fn lookup(paths: Seq<(Seq<char>, Seq<char>)>, key: Seq<char>) -> Option<Seq<char>>
    decreases paths.len(),
{
    if paths.len() == 0 {
        None
    } else if paths[0].0 == key {
        Some(paths[0].1)
    } else {
        lookup(paths.drop_first(), key)
    }
}

/// The mod folder that the settings give for the game `key`: its override,
/// trimmed, unless that is empty (or there is none).
pub open spec fn configured_folder(c: ConfigView, key: Seq<char>) -> Option<Seq<char>> {
    let raw = match lookup(c.paths, key) {
        Some(p) => p,
        None => Seq::<char>::empty(),
    };
    if trim(raw).len() > 0 {
        Some(trim(raw))
    } else {
        None
    }
}

/// The overrides whose path is not blank, in order.
pub open spec fn nonblank_paths(paths: Seq<(Seq<char>, Seq<char>)>) -> Seq<(Seq<char>, Seq<char>)>
    decreases paths.len(),
{
    if paths.len() == 0 {
        paths
    } else {
        let rest = nonblank_paths(paths.drop_last());
        if is_blank(paths.last().1) {
            rest
        } else {
            rest.push(paths.last())
        }
    }
}

/// The theme after loading: `light` and `dark` stay, anything else becomes
/// `light`.
pub open spec fn normalized_mode(mode: Seq<char>) -> Seq<char> {
    if mode == light_mode() || mode == dark_mode() {
        mode
    } else {
        light_mode()
    }
}

/// The folder the manager shows for each game: for the games in order, the
/// configured folder or, where there is none, what discovery found.
pub open spec fn ui_paths(c: ConfigView, discovered: Seq<Option<Seq<char>>>, n: int) -> Seq<(Seq<char>, Seq<char>)>
    decreases n,
{
    if n <= 0 {
        Seq::empty()
    } else {
        let rest = ui_paths(c, discovered, n - 1);
        let key = known_games()[n - 1].key;
        match configured_folder(c, key) {
            Some(p) => rest.push((key, p)),
            None => match discovered[n - 1] {
                Some(p) => rest.push((key, p)),
                None => rest,
            },
        }
    }
}

// ---------------------------------------------------------------------------
// Lemmas

/// The lookup finds the first pair with the key.
proof fn lemma_lookup(paths: Seq<(Seq<char>, Seq<char>)>, key: Seq<char>, k: int)
    requires
        0 <= k <= paths.len(),
        forall|j: int| 0 <= j < k ==> #[trigger] paths[j].0 != key,
        k == paths.len() || paths[k].0 == key,
    ensures
        lookup(paths, key) == (if k == paths.len() { None } else { Some(paths[k].1) }),
    decreases k,
{
    if k > 0 {
        assert forall|j: int| 0 <= j < k - 1 implies #[trigger] paths.drop_first()[j].0 != key by {
            assert(paths.drop_first()[j] == paths[j + 1]);
        }
        lemma_lookup(paths.drop_first(), key, k - 1);
    }
}

/// With distinct keys, the lookup finds the one pair with the key.
proof fn lemma_lookup_distinct(paths: Seq<(Seq<char>, Seq<char>)>, key: Seq<char>)
    requires
        distinct_keys(paths),
    ensures
        lookup(paths, key) is Some <==> exists|i: int| 0 <= i < paths.len() && #[trigger] paths[i].0 == key,
        forall|i: int| 0 <= i < paths.len() && #[trigger] paths[i].0 == key ==> lookup(paths, key) == Some(paths[i].1),
{
    if exists|i: int| 0 <= i < paths.len() && #[trigger] paths[i].0 == key {
        let i = choose|i: int| 0 <= i < paths.len() && #[trigger] paths[i].0 == key;
        assert forall|j: int| 0 <= j < i implies #[trigger] paths[j].0 != key by {}
        lemma_lookup(paths, key, i);
    } else {
        lemma_lookup(paths, key, paths.len() as int);
    }
}

/// Every pair kept by `nonblank_paths` comes from `paths` and has a path
/// that is not blank; every such pair of `paths` is kept.
proof fn lemma_nonblank_paths(paths: Seq<(Seq<char>, Seq<char>)>)
    ensures
        forall|i: int| 0 <= i < nonblank_paths(paths).len() ==>
            paths.contains(#[trigger] nonblank_paths(paths)[i]) && !is_blank(nonblank_paths(paths)[i].1),
        forall|i: int| 0 <= i < paths.len() && !is_blank(#[trigger] paths[i].1) ==>
            nonblank_paths(paths).contains(paths[i]),
        nonblank_paths(paths).len() <= paths.len(),
    decreases paths.len(),
{
    if paths.len() > 0 {
        let pre = paths.drop_last();
        lemma_nonblank_paths(pre);
        let rest = nonblank_paths(pre);
        assert forall|i: int| 0 <= i < nonblank_paths(paths).len() implies
            paths.contains(#[trigger] nonblank_paths(paths)[i]) && !is_blank(nonblank_paths(paths)[i].1) by {
            if i < rest.len() {
                let x = rest[i];
                assert(pre.contains(x));
                let j = choose|j: int| 0 <= j < pre.len() && pre[j] == x;
                assert(paths[j] == x);
            } else {
                assert(paths[paths.len() - 1] == paths.last());
            }
        }
        assert forall|i: int| 0 <= i < paths.len() && !is_blank(#[trigger] paths[i].1) implies
            nonblank_paths(paths).contains(paths[i]) by {
            if i < paths.len() - 1 {
                assert(pre[i] == paths[i]);
                assert(rest.contains(pre[i]));
                let j = choose|j: int| 0 <= j < rest.len() && rest[j] == pre[i];
                assert(nonblank_paths(paths)[j] == rest[j]);
            } else {
                assert(nonblank_paths(paths)[rest.len() as int] == paths.last());
            }
        }
    }
}

/// Pruning keeps the keys distinct and keeps the relative order of pairs, so
/// a key's lookup finds the same pair when that pair is kept and nothing when
/// it is dropped.
proof fn lemma_nonblank_lookup(paths: Seq<(Seq<char>, Seq<char>)>, key: Seq<char>)
    requires
        distinct_keys(paths),
    ensures
        distinct_keys(nonblank_paths(paths)),
        lookup(nonblank_paths(paths), key) == (match lookup(paths, key) {
            Some(p) => if is_blank(p) { None } else { Some(p) },
            None => None,
        }),
    decreases paths.len(),
{
    if paths.len() > 0 {
        let pre = paths.drop_last();
        assert(distinct_keys(pre)) by {
            assert forall|i: int, j: int| 0 <= i < pre.len() && 0 <= j < pre.len() && i != j
                implies #[trigger] pre[i].0 != #[trigger] pre[j].0 by {
                assert(pre[i] == paths[i] && pre[j] == paths[j]);
            }
        }
        lemma_nonblank_lookup(pre, key);
        lemma_nonblank_paths(pre);
        let rest = nonblank_paths(pre);
        let last = paths.last();
        // No pair of `pre` has the key of `last`.
        assert forall|i: int| 0 <= i < pre.len() implies #[trigger] pre[i].0 != last.0 by {
            assert(pre[i] == paths[i]);
            assert(last == paths[paths.len() - 1]);
        }
        assert forall|i: int| 0 <= i < rest.len() implies #[trigger] rest[i].0 != last.0 by {
            assert(pre.contains(rest[i]));
        }
        lemma_lookup_distinct(paths, key);
        lemma_lookup_distinct(pre, key);
        lemma_lookup_distinct(rest, key);
        if !is_blank(last.1) {
            let now = rest.push(last);
            assert(distinct_keys(now)) by {
                assert forall|i: int, j: int| 0 <= i < now.len() && 0 <= j < now.len() && i != j
                    implies #[trigger] now[i].0 != #[trigger] now[j].0 by {
                    if i < rest.len() && j < rest.len() {
                        assert(now[i] == rest[i] && now[j] == rest[j]);
                    }
                }
            }
            lemma_lookup_distinct(now, key);
            if last.0 == key {
                assert(paths[paths.len() - 1].0 == key);
                assert(now[now.len() - 1].0 == key);
            } else {
                if lookup(paths, key) is Some {
                    let i = choose|i: int| 0 <= i < paths.len() && #[trigger] paths[i].0 == key;
                    assert(pre[i] == paths[i]);
                }
                if lookup(now, key) is Some {
                    let i = choose|i: int| 0 <= i < now.len() && #[trigger] now[i].0 == key;
                    assert(rest[i] == now[i]);
                }
                if lookup(pre, key) is Some {
                    let i = choose|i: int| 0 <= i < pre.len() && #[trigger] pre[i].0 == key;
                    assert(paths[i] == pre[i]);
                }
                if lookup(rest, key) is Some {
                    let i = choose|i: int| 0 <= i < rest.len() && #[trigger] rest[i].0 == key;
                    assert(now[i] == rest[i]);
                }
            }
        } else {
            if last.0 == key {
                assert(paths[paths.len() - 1].0 == key);
                if lookup(rest, key) is Some {
                    let i = choose|i: int| 0 <= i < rest.len() && #[trigger] rest[i].0 == key;
                    assert(false);
                }
            } else {
                if lookup(paths, key) is Some {
                    let i = choose|i: int| 0 <= i < paths.len() && #[trigger] paths[i].0 == key;
                    assert(pre[i] == paths[i]);
                }
                if lookup(pre, key) is Some {
                    let i = choose|i: int| 0 <= i < pre.len() && #[trigger] pre[i].0 == key;
                    assert(paths[i] == pre[i]);
                }
            }
        }
    }
}


// ---------------------------------------------------------------------------
// Laws

/// Removing blank overrides, as saving does, changes no game's folder.
pub proof fn law_prune_keeps_folders(c: ConfigView, key: Seq<char>)
    requires
        distinct_keys(c.paths),
    ensures
        configured_folder(ConfigView { paths: nonblank_paths(c.paths), ..c }, key) == configured_folder(c, key),
{
    lemma_nonblank_lookup(c.paths, key);
    assert(trim(Seq::<char>::empty()) =~= Seq::<char>::empty());
}

/// After pruning, every override is kept exactly when its path is not blank.
pub proof fn law_pruned_paths_are_nonblank(c: ConfigView)
    requires
        distinct_keys(c.paths),
    ensures
        distinct_keys(nonblank_paths(c.paths)),
        forall|i: int| 0 <= i < nonblank_paths(c.paths).len() ==>
            !is_blank(#[trigger] nonblank_paths(c.paths)[i].1) && c.paths.contains(nonblank_paths(c.paths)[i]),
        forall|i: int| 0 <= i < c.paths.len() && !is_blank(#[trigger] c.paths[i].1) ==>
            nonblank_paths(c.paths).contains(c.paths[i]),
{
    lemma_nonblank_paths(c.paths);
    lemma_nonblank_lookup(c.paths, Seq::empty());
}

/// A loaded theme is always `light` or `dark`, and loading it again changes
/// nothing.
pub proof fn law_normalized_mode(mode: Seq<char>)
    ensures
        normalized_mode(mode) == light_mode() || normalized_mode(mode) == dark_mode(),
        normalized_mode(normalized_mode(mode)) == normalized_mode(mode),
        (mode == light_mode() || mode == dark_mode()) ==> normalized_mode(mode) == mode,
{
}

/// The folders shown have one entry per game at most, each under a known
/// game's key, and a game with a configured folder is shown with it.
pub proof fn law_ui_paths(c: ConfigView, discovered: Seq<Option<Seq<char>>>, n: int)
    requires
        0 <= n <= known_games().len(),
    ensures
        distinct_keys(ui_paths(c, discovered, n)),
        forall|j: int| 0 <= j < ui_paths(c, discovered, n).len() ==> exists|i: int|
            0 <= i < n && #[trigger] known_games()[i].key == (#[trigger] ui_paths(c, discovered, n)[j]).0,
        forall|i: int| 0 <= i < n && #[trigger] configured_folder(c, known_games()[i].key) is Some ==>
            ui_paths(c, discovered, n).contains((known_games()[i].key, configured_folder(c, known_games()[i].key)->0)),
    decreases n,
{
    crate::games::law_game_keys_distinct();
    if n > 0 {
        law_ui_paths(c, discovered, n - 1);
        let rest = ui_paths(c, discovered, n - 1);
        let key = known_games()[n - 1].key;
        let now = ui_paths(c, discovered, n);
        // Keys already shown belong to earlier games, so not to game `n - 1`.
        assert forall|j: int| 0 <= j < rest.len() implies #[trigger] rest[j].0 != key by {
            let i = choose|i: int| 0 <= i < n - 1 && #[trigger] known_games()[i].key == rest[j].0;
            assert(known_games()[i].key != known_games()[n - 1].key);
        }
        assert forall|j: int| 0 <= j < now.len() implies exists|i: int|
            0 <= i < n && #[trigger] known_games()[i].key == (#[trigger] now[j]).0 by {
            if j < rest.len() {
                assert(now[j] == rest[j]);
                let i = choose|i: int| 0 <= i < n - 1 && #[trigger] known_games()[i].key == rest[j].0;
                assert(known_games()[i].key == now[j].0);
            } else {
                assert(known_games()[n - 1].key == now[j].0);
            }
        }
        assert(distinct_keys(now)) by {
            assert forall|a: int, b: int| 0 <= a < now.len() && 0 <= b < now.len() && a != b
                implies #[trigger] now[a].0 != #[trigger] now[b].0 by {
                if a < rest.len() && b < rest.len() {
                    assert(now[a] == rest[a] && now[b] == rest[b]);
                } else if a < rest.len() {
                    assert(now[a] == rest[a]);
                } else {
                    assert(now[b] == rest[b]);
                }
            }
        }
        assert forall|i: int| 0 <= i < n && #[trigger] configured_folder(c, known_games()[i].key) is Some implies
            now.contains((known_games()[i].key, configured_folder(c, known_games()[i].key)->0)) by {
            if i < n - 1 {
                let x = (known_games()[i].key, configured_folder(c, known_games()[i].key)->0);
                assert(rest.contains(x));
                let j = choose|j: int| 0 <= j < rest.len() && rest[j] == x;
                assert(now[j] == rest[j]);
            } else {
                assert(now[now.len() - 1] == (key, configured_folder(c, key)->0));
            }
        }
    }
}

// ---------------------------------------------------------------------------
// Executable code

impl Default for AppConfig {
    /// The settings of a first run: light theme, no overrides, no tags.
    fn default() -> (c: AppConfig)
        ensures
            c@ == default_config(),
            c.wf(),
    {
        let c = AppConfig {
            mode: String::from_str("light"),
            game_paths: Vec::new(),
            last_updater_release_tag: None,
            last_app_release_tag: None,
            last_resources_tag: None,
        };
        proof {
            reveal_strlit("light");
        }
        assert(c@.mode =~= light_mode());
        assert(c@.paths =~= Seq::<(Seq<char>, Seq<char>)>::empty());
        c
    }
}

impl AppConfig {
    /// The settings as loaded from disk: a theme other than `light` or `dark`
    /// is replaced by `light`; everything else is kept.
    pub fn normalize_loaded(self) -> (c: AppConfig)
        ensures
            c@ == (ConfigView { mode: normalized_mode(self@.mode), ..self@ }),
    {
        let mut c = self;
        proof {
            reveal_strlit("light");
            reveal_strlit("dark");
        }
        let is_light = str_equals(c.mode.as_str(), "light");
        let is_dark = str_equals(c.mode.as_str(), "dark");
        assert("light"@ =~= light_mode());
        assert("dark"@ =~= dark_mode());
        if !is_light && !is_dark {
            c.mode = String::from_str("light");
        }
        c
    }

    /// The override stored for the game `key`, if any.
    pub fn path_override(&self, key: &str) -> (r: Option<String>)
        ensures
            opt_view(r) == lookup(self@.paths, key@),
    {
        let n = self.game_paths.len();
        let mut i: usize = 0;
        while i < n
            invariant
                n == self.game_paths.len(),
                i <= n,
                forall|j: int| 0 <= j < i ==> #[trigger] self@.paths[j].0 != key@,
            decreases n - i,
        {
            if str_equals(self.game_paths[i].key.as_str(), key) {
                proof {
                    lemma_lookup(self@.paths, key@, i as int);
                }
                return Some(String::from_str(self.game_paths[i].path.as_str()));
            }
            assert(self@.paths[i as int].0 == self.game_paths@[i as int].key@);
            i = i + 1;
        }
        proof {
            lemma_lookup(self@.paths, key@, n as int);
        }
        None
    }

    /// The settings with every override whose path is blank removed (what is
    /// saved).
    pub fn prune_blank_paths(self) -> (c: AppConfig)
        ensures
            c@ == (ConfigView { paths: nonblank_paths(self@.paths), ..self@ }),
            self.wf() ==> c.wf(),
    {
        let ghost before = self@.paths;
        let AppConfig { mode, game_paths, last_updater_release_tag, last_app_release_tag, last_resources_tag } = self;
        let mut kept: Vec<GamePath> = Vec::new();
        let n = game_paths.len();
        let mut i: usize = 0;
        assert(path_pairs(game_paths@).take(0) =~= Seq::<(Seq<char>, Seq<char>)>::empty());
        assert(path_pairs(kept@) =~= Seq::<(Seq<char>, Seq<char>)>::empty());
        while i < n
            invariant
                n == game_paths@.len(),
                i <= n,
                path_pairs(kept@) == nonblank_paths(path_pairs(game_paths@).take(i as int)),
            decreases n - i,
        {
            let ghost old_kept = kept@;
            let gp = &game_paths[i];
            let ghost pre = path_pairs(game_paths@).take(i as int);
            let ghost now = path_pairs(game_paths@).take(i + 1);
            assert(now.drop_last() =~= pre);
            assert(now.last() == (gp.key@, gp.path@));
            if !str_is_blank(gp.path.as_str()) {
                kept.push(GamePath { key: gp.key.clone(), path: gp.path.clone() });
                assert(path_pairs(kept@) =~= path_pairs(old_kept).push((gp.key@, gp.path@)));
            }
            i = i + 1;
        }
        assert(path_pairs(game_paths@).take(n as int) =~= path_pairs(game_paths@));
        proof {
            if distinct_keys(before) {
                lemma_nonblank_lookup(before, Seq::empty());
            }
        }
        AppConfig { mode, game_paths: kept, last_updater_release_tag, last_app_release_tag, last_resources_tag }
    }

    /// Records `tag` as the release whose updater was last installed.
    pub fn set_last_updater_release_tag(&mut self, tag: String)
        ensures
            final(self)@ == (ConfigView { updater_tag: Some(tag@), ..old(self)@ }),
    {
        self.last_updater_release_tag = Some(tag);
    }

    /// Records `tag` as the release of the application last installed.
    pub fn set_last_app_release_tag(&mut self, tag: String)
        ensures
            final(self)@ == (ConfigView { app_tag: Some(tag@), ..old(self)@ }),
    {
        self.last_app_release_tag = Some(tag);
    }

    /// Records `tag` as the release of the resources last installed.
    pub fn set_last_resources_tag(&mut self, tag: String)
        ensures
            final(self)@ == (ConfigView { resources_tag: Some(tag@), ..old(self)@ }),
    {
        self.last_resources_tag = Some(tag);
    }
}

/// The mod folder that the settings choose for `game`: its override, trimmed,
/// when that is not empty. `None` means that the folder has to be discovered
/// on disk.
pub fn resolve_target_folder(game: &GameInfo, config: &AppConfig) -> (r: Option<String>)
    ensures
        opt_view(r) == configured_folder(config@, game@.key),
{
    let raw = match config.path_override(game.key.as_str()) {
        Some(p) => p,
        None => String::new(),
    };
    let trimmed = trim_string(raw.as_str());
    if trimmed.as_str().unicode_len() > 0 {
        Some(trimmed)
    } else {
        None
    }
}

/// The folder shown for each game, by key: the configured folder, or else
/// `discovered[i]`, what a search on disk found for the `i`-th game (it is
/// consulted only where no folder is configured). Games with neither are
/// left out.
pub fn resolved_paths_for_ui(config: &AppConfig, discovered: &Vec<Option<String>>) -> (r: Vec<GamePath>)
    requires
        discovered.len() == known_games().len(),
    ensures
        path_pairs(r@) == ui_paths(config@, discovered@.map_values(|d: Option<String>| opt_view(d)), known_games().len() as int),
{
    let ghost disc = discovered@.map_values(|d: Option<String>| opt_view(d));
    let all = games();
    let mut out: Vec<GamePath> = Vec::new();
    let mut i: usize = 0;
    while i < all.len()
        invariant
            game_views(all@) == known_games(),
            all.len() == discovered.len(),
            disc == discovered@.map_values(|d: Option<String>| opt_view(d)),
            i <= all.len(),
            path_pairs(out@) == ui_paths(config@, disc, i as int),
        decreases all.len() - i,
    {
        assert(all@[i as int]@ == known_games()[i as int]);
        let ghost old_out = out@;
        match resolve_target_folder(&all[i], config) {
            Some(p) => {
                out.push(GamePath { key: String::from_str(all[i].key.as_str()), path: p });
                assert(path_pairs(out@) =~= path_pairs(old_out).push((out@.last().key@, out@.last().path@)));
            },
            None => {
                match &discovered[i] {
                    Some(p) => {
                        assert(disc[i as int] == Some(p@));
                        out.push(GamePath { key: String::from_str(all[i].key.as_str()), path: String::from_str(p.as_str()) });
                        assert(path_pairs(out@) =~= path_pairs(old_out).push((out@.last().key@, out@.last().path@)));
                    },
                    None => {
                        assert(disc[i as int] == None::<Seq<char>>);
                    },
                }
            },
        }
        i = i + 1;
    }
    out
}

} // verus!
