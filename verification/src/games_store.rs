//! The store of classified games: for each game key (`{app_name}_{runner}`)
//! its title, the ids outside sources know it by, and its category slugs.
use vstd::prelude::*;
use vstd::string::*;

use crate::json::{as_u64, as_u64_view, Json};
use crate::strmap::{
    assoc_map, ensure_key, find_key, has_key, keys_distinct, keys_in_order, keys_sorted,
    keys_unique, lemma_sorted_lookup, lemma_update_value, lookup, value_mut,
};

verus! {

/// The store as saved on disk.
pub struct GamesData {
    pub version: u32,
    pub games: Vec<(String, GameEntry)>,
}

/// One classified game.
pub struct GameEntry {
    pub title: String,
    pub sources: Vec<(String, Json)>,
    pub categories: Vec<String>,
}

/// The store together with the file it is saved to.
pub struct GamesStore {
    pub path: Vec<u8>,
    pub data: GamesData,
}

impl GameEntry {
    /// The source ids have distinct keys.
    pub open spec fn wf(&self) -> bool {
        keys_unique(self.sources@)
    }

    /// A game with no title, no source ids and no categories.
    pub fn empty() -> (r: GameEntry)
        ensures
            r.wf(),
            r.title@.len() == 0,
            r.sources@.len() == 0,
            r.categories@.len() == 0,
    {
        GameEntry { title: String::new(), sources: Vec::new(), categories: Vec::new() }
    }
}

/// Games are sorted by key and each is well formed.
pub open spec fn games_wf(s: Seq<(String, GameEntry)>) -> bool {
    &&& keys_sorted(s)
    &&& forall|i: int| 0 <= i < s.len() ==> (#[trigger] s[i].1).wf()
}

/// The IGDB id that the store maps a game key to, where it has one.
pub open spec fn mapped_igdb_id_spec(games: Seq<(String, GameEntry)>, key: Seq<char>) -> Option<u64> {
    match lookup(games, key) {
        Some(e) => match lookup(e.sources@, "igdb"@) {
            Some(v) => as_u64_view(v),
            None => None,
        },
        None => None,
    }
}

impl GamesData {
    pub open spec fn wf(&self) -> bool {
        games_wf(self.games@)
    }

    /// Whether the games are sorted by key and each has distinct source keys.
    pub fn is_well_formed(&self) -> (r: bool)
        ensures
            r == self.wf(),
    {
        if !keys_in_order(&self.games) {
            return false;
        }
        let n = self.games.len();
        let mut i: usize = 0;
        while i < n
            invariant
                n == self.games@.len(),
                i <= n,
                forall|j: int| 0 <= j < i ==> (#[trigger] self.games@[j].1).wf(),
            decreases n - i,
        {
            if !keys_distinct(&self.games[i].1.sources) {
                return false;
            }
            i = i + 1;
        }
        true
    }
}

impl GamesStore {
    pub open spec fn wf(&self) -> bool {
        games_wf(self.data.games@)
    }

    /// The store as read from `path`.
    pub fn from_loaded(path: Vec<u8>, data: GamesData) -> (r: GamesStore)
        requires
            data.wf(),
        ensures
            r.wf(),
            r.path == path,
            r.data == data,
    {
        GamesStore { path, data }
    }

    /// The games by key.
    pub open spec fn game_map(&self) -> Map<Seq<char>, GameEntry> {
        assoc_map(self.data.games@)
    }

    /// An empty store (format version 1) saved to `path`.
    pub fn empty(path: Vec<u8>) -> (r: GamesStore)
        ensures
            r.wf(),
            r.path == path,
            r.data.version == 1,
            r.data.games@.len() == 0,
    {
        GamesStore { path, data: GamesData { version: 1, games: Vec::new() } }
    }

    /// The game `app_key`, added with no title, source ids or categories where
    /// the store does not have it yet.
    pub fn game(&mut self, app_key: &str) -> (r: &mut GameEntry)
        requires
            old(self).wf(),
        ensures
            r.wf(),
            old(self).game_map().contains_key(app_key@) ==> *r == old(self).game_map()[app_key@],
            !old(self).game_map().contains_key(app_key@) ==> r.title@.len() == 0
                && r.sources@.len() == 0 && r.categories@.len() == 0,
            final(r).wf() ==> final(self).wf(),
            final(self).game_map() == old(self).game_map().insert(app_key@, *final(r)),
            final(self).data.version == old(self).data.version,
            final(self).path == old(self).path,
    {
        let ghost old_games = self.data.games@;
        let fresh = GameEntry::empty();
        let i = ensure_key(&mut self.data.games, app_key, fresh);
        let ghost mid = self.data.games@;
        proof {
            if has_key(old_games, app_key@) {
                let j = choose|j: int| 0 <= j < old_games.len() && #[trigger] old_games[j].0@ == app_key@;
                lemma_sorted_lookup(old_games, j);
                lemma_sorted_lookup(old_games, i as int);
            }
            assert forall|j: int| 0 <= j < mid.len() implies (#[trigger] mid[j].1).wf() by {
                if !has_key(old_games, app_key@) {
                    if j < i {
                        assert(mid[j] == old_games[j]);
                    } else if j > i {
                        assert(mid[j] == old_games[j - 1]);
                    }
                }
            }
            lemma_sorted_lookup(mid, i as int);
        }
        let r = value_mut(&mut self.data.games, i);
        proof {
            let e = *final(r);
            lemma_update_value(mid, i as int, e);
            let s = mid.update(i as int, (mid[i as int].0, e));
            assert forall|j: int| 0 <= j < s.len() && j != i implies (#[trigger] s[j].1).wf() by {
                assert(s[j] == mid[j]);
            }
            assert(assoc_map(s) =~= old(self).game_map().insert(app_key@, e));
        }
        r
    }

    /// The IGDB id the store maps a game key to, where it has one.
    pub fn mapped_igdb_id(&self, app_key: &str) -> (r: Option<u64>)
        requires
            self.wf(),
        ensures
            r == mapped_igdb_id_spec(self.data.games@, app_key@),
    {
        match find_key(&self.data.games, app_key) {
            Some(i) => {
                proof {
                    lemma_sorted_lookup(self.data.games@, i as int);
                    assert(self.data.games@[i as int].1.wf());
                }
                let e = &self.data.games[i].1;
                match find_key(&e.sources, "igdb") {
                    Some(j) => {
                        proof {
                            crate::strmap::lemma_unique_lookup(e.sources@, j as int);
                        }
                        as_u64(&e.sources[j].1)
                    },
                    None => None,
                }
            },
            None => None,
        }
    }
}

} // verus!
