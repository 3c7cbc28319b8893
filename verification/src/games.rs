//! The games whose mod folders the manager serves.

use vstd::prelude::*;
use crate::text::str_equals;

verus! {

/// One supported game: its display name, the key that identifies it, the
/// subfolder of the resources that holds its scripts, and the name of its mod
/// folder.
pub struct GameInfo {
    pub name: String,
    pub key: String,
    pub subfolder: String,
    pub mod_folder_name: String,
}

/// The contents of a [`GameInfo`].
pub struct GameView {
    pub name: Seq<char>,
    pub key: Seq<char>,
    pub subfolder: Seq<char>,
    pub mod_folder_name: Seq<char>,
}

impl View for GameInfo {
    type V = GameView;

    open spec fn view(&self) -> GameView {
        GameView {
            name: self.name@,
            key: self.key@,
            subfolder: self.subfolder@,
            mod_folder_name: self.mod_folder_name@,
        }
    }
}

/// A game described by its four strings.
pub open spec fn game_view(name: &str, key: &str, subfolder: &str, mod_folder: &str) -> GameView {
    GameView { name: name@, key: key@, subfolder: subfolder@, mod_folder_name: mod_folder@ }
}

/// The supported games, in the order the manager lists them.
pub open spec fn known_games() -> Seq<GameView> {
    seq![
        game_view("Genshin Impact", "gi", "gi", "GIMI"),
        game_view("Honkai Star Rail", "hsr", "hsr", "SRMI"),
        game_view("Wuthering Waves", "wuwa", "wuwa", "WWMI"),
        game_view("Zenless Zone Zero", "zzz", "zzz", "ZZMI"),
        game_view("Honkai Impact 3rd", "hi3", "hi3", "HIMI"),
    ]
}

/// The views of a list of games.
pub open spec fn game_views(v: Seq<GameInfo>) -> Seq<GameView> {
    v.map_values(|g: GameInfo| g@)
}

/// Some supported game has the key `key`.
pub open spec fn is_known_key(key: Seq<char>) -> bool {
    exists|i: int| 0 <= i < known_games().len() && #[trigger] known_games()[i].key == key
}


/// No two supported games share a key, so a key names at most one game.
pub proof fn law_game_keys_distinct()
    ensures
        forall|i: int, j: int|
            0 <= i < known_games().len() && 0 <= j < known_games().len() && i != j
                ==> #[trigger] known_games()[i].key != #[trigger] known_games()[j].key,
{
    reveal_strlit("gi");
    reveal_strlit("hsr");
    reveal_strlit("wuwa");
    reveal_strlit("zzz");
    reveal_strlit("hi3");
    let k = known_games().map_values(|g: GameView| g.key);
    assert(k[0] != k[1] && k[0] != k[2] && k[0] != k[3] && k[0] != k[4]) by {
        assert(k[0].len() != k[1].len() && k[0].len() != k[2].len());
        assert(k[0].len() != k[3].len() && k[0].len() != k[4].len());
    }
    assert(k[1] != k[2] && k[1] != k[3] && k[1] != k[4]) by {
        assert(k[1].len() != k[2].len() && k[1][0] != k[3][0] && k[1][1] != k[4][1]);
    }
    assert(k[2] != k[3] && k[2] != k[4]) by {
        assert(k[2].len() != k[3].len() && k[2].len() != k[4].len());
    }
    assert(k[3] != k[4]) by {
        assert(k[3][0] != k[4][0]);
    }
    assert forall|i: int, j: int|
        0 <= i < known_games().len() && 0 <= j < known_games().len() && i != j
            implies #[trigger] known_games()[i].key != #[trigger] known_games()[j].key by {
        assert(known_games()[i].key == k[i]);
        assert(known_games()[j].key == k[j]);
    }
}

/// Looking up the key of a supported game finds that game.
pub proof fn law_find_game_by_own_key(i: int)
    requires
        0 <= i < known_games().len(),
    ensures
        is_known_key(known_games()[i].key),
        forall|g: GameView| #[trigger] known_games().contains(g) && g.key == known_games()[i].key
            ==> g == known_games()[i],
{
    law_game_keys_distinct();
    assert(known_games()[i].key == known_games()[i].key);
}

fn game(name: &str, key: &str, subfolder: &str, mod_folder: &str) -> (g: GameInfo)
    ensures
        g@ == game_view(name, key, subfolder, mod_folder),
{
    GameInfo {
        name: String::from_str(name),
        key: String::from_str(key),
        subfolder: String::from_str(subfolder),
        mod_folder_name: String::from_str(mod_folder),
    }
}

/// The supported games.
pub fn games() -> (r: Vec<GameInfo>)
    ensures
        game_views(r@) == known_games(),
{
    let mut r: Vec<GameInfo> = Vec::new();
    r.push(game("Genshin Impact", "gi", "gi", "GIMI"));
    r.push(game("Honkai Star Rail", "hsr", "hsr", "SRMI"));
    r.push(game("Wuthering Waves", "wuwa", "wuwa", "WWMI"));
    r.push(game("Zenless Zone Zero", "zzz", "zzz", "ZZMI"));
    r.push(game("Honkai Impact 3rd", "hi3", "hi3", "HIMI"));
    assert(game_views(r@) =~= known_games());
    r
}

/// The supported game whose key is `game_key`, if there is one.
pub fn find_game(game_key: &str) -> (r: Option<GameInfo>)
    ensures
        r.is_some() == is_known_key(game_key@),
        r matches Some(g) ==> g@.key == game_key@ && known_games().contains(g@),
{
    let mut all = games();
    let n = all.len();
    let mut i: usize = 0;
    while i < n
        invariant
            n == all.len(),
            game_views(all@) == known_games(),
            i <= n,
            forall|j: int| 0 <= j < i ==> #[trigger] known_games()[j].key != game_key@,
        decreases n - i,
    {
        if str_equals(all[i].key.as_str(), game_key) {
            assert(known_games()[i as int] == all@[i as int]@);
            assert(known_games()[i as int].key == game_key@);
            let g = all.remove(i);
            return Some(g);
        }
        assert(known_games()[i as int] == all@[i as int]@);
        i = i + 1;
    }
    None
}

} // verus!
