//! Heroic's `store/config.json`: the custom categories live under
//! `games.customCategories`, a map from category name to the list of game
//! keys in it; the rest of the document is kept as it is.
use vstd::prelude::*;
use vstd::string::*;

use crate::json::{
    as_str_view, clone_members, json_pairs_view, member, unique_members, Json, JsonView,
};
use crate::paths::{join_path, join_spec};
use crate::strmap::{
    assoc_set, ensure_key_unique, find_key, has_key, keys_distinct, keys_unique,
    lemma_unique_lookup, lemma_unique_update, lookup, same_key, value_mut,
};

verus! {

/// The configuration document and the file it is saved to.
pub struct HeroicConfig {
    pub path: Vec<u8>,
    pub data: Json,
}

/// The `games` member of the document.
pub open spec fn games_of(d: Json) -> Option<Json> {
    member(d, "games"@)
}

/// The `games.customCategories` member of the document.
pub open spec fn custom_categories_of(d: Json) -> Option<Json> {
    match games_of(d) {
        Some(g) => member(g, "customCategories"@),
        None => None,
    }
}

/// The categories that `categories` reports: the members of
/// `games.customCategories` where it is an object, else none.
pub open spec fn categories_view(d: Json) -> Seq<(Seq<char>, JsonView)> {
    match custom_categories_of(d) {
        Some(Json::Object(c)) => json_pairs_view(c@),
        _ => Seq::empty(),
    }
}

/// The document can be written into: it is an object or null.
pub open spec fn writable(d: Json) -> bool {
    d is Object || d is Null
}

/// Where the configuration document lies below Heroic's root.
pub open spec fn config_path_spec(root: Seq<u8>) -> Seq<u8> {
    join_spec(root, "store/config.json".spec_bytes())
}

impl HeroicConfig {
    /// Where the configuration document lies below Heroic's root.
    pub fn config_path(root: &[u8]) -> (r: Vec<u8>)
        ensures
            r@ == config_path_spec(root@),
    {
        join_path(root, "store/config.json".as_bytes())
    }

    /// The configuration as read from `path`.
    pub fn from_loaded(path: Vec<u8>, data: Json) -> (r: HeroicConfig)
        ensures
            r.path == path,
            r.data == data,
    {
        HeroicConfig { path, data }
    }

    /// Whether the objects on the path to the categories have distinct keys.
    pub fn is_well_formed(&self) -> (r: bool)
        ensures
            r == self.wf(),
    {
        match &self.data {
            Json::Object(top) => {
                if !keys_distinct(top) {
                    return false;
                }
                match find_key(top, "games") {
                    Some(gi) => {
                        proof {
                            lemma_unique_lookup(top@, gi as int);
                        }
                        match &top[gi].1 {
                            Json::Object(games) => {
                                if !keys_distinct(games) {
                                    return false;
                                }
                                match find_key(games, "customCategories") {
                                    Some(ci) => {
                                        proof {
                                            lemma_unique_lookup(games@, ci as int);
                                        }
                                        match &games[ci].1 {
                                            Json::Object(c) => keys_distinct(c),
                                            _ => true,
                                        }
                                    },
                                    None => true,
                                }
                            },
                            _ => true,
                        }
                    },
                    None => true,
                }
            },
            _ => true,
        }
    }

    /// The objects on the path to the categories have distinct keys.
    pub open spec fn wf(&self) -> bool {
        &&& unique_members(self.data)
        &&& (games_of(self.data) matches Some(g) ==> unique_members(g))
        &&& (custom_categories_of(self.data) matches Some(c) ==> unique_members(c))
    }

    /// A copy of the custom categories.
    pub fn categories(&self) -> (r: Vec<(String, Json)>)
        requires
            self.wf(),
        ensures
            json_pairs_view(r@) == categories_view(self.data),
            keys_unique(r@),
    {
        match &self.data {
            Json::Object(top) => match find_key(top, "games") {
                Some(gi) => {
                    proof {
                        lemma_unique_lookup(top@, gi as int);
                    }
                    match &top[gi].1 {
                        Json::Object(games) => match find_key(games, "customCategories") {
                            Some(ci) => {
                                proof {
                                    lemma_unique_lookup(games@, ci as int);
                                }
                                match &games[ci].1 {
                                    Json::Object(c) => clone_members(c),
                                    _ => Vec::new(),
                                }
                            },
                            None => Vec::new(),
                        },
                        _ => Vec::new(),
                    }
                },
                None => Vec::new(),
            },
            _ => Vec::new(),
        }
    }

    /// Makes `games` an object, replacing whatever else stood there.
    fn ensure_games_object(&mut self)
        requires
            old(self).wf(),
            writable(old(self).data),
        ensures
            final(self).wf(),
            final(self).path == old(self).path,
            final(self).data is Object,
            forall|k: Seq<char>| k != "games"@ ==> #[trigger] member(final(self).data, k) == member(old(self).data, k),
            games_of(final(self).data) matches Some(Json::Object(_)),
            games_of(old(self).data) matches Some(Json::Object(_)) ==> games_of(final(self).data)
                == games_of(old(self).data),
            !(games_of(old(self).data) matches Some(Json::Object(_))) ==> (games_of(
                final(self).data,
            ) matches Some(Json::Object(g)) && g@.len() == 0),
    {
        let is_object = match &self.data {
            Json::Object(top) => match find_key(top, "games") {
                Some(gi) => {
                    proof {
                        lemma_unique_lookup(top@, gi as int);
                    }
                    match &top[gi].1 {
                        Json::Object(_) => true,
                        _ => false,
                    }
                },
                None => false,
            },
            _ => false,
        };
        if !is_object {
            if let Json::Null = &self.data {
                self.data = Json::Object(Vec::new());
                assert(forall|k: Seq<char>| #[trigger] member(self.data, k) is None);
            }
            match &mut self.data {
                Json::Object(top) => {
                    assoc_set(top, "games", Json::Object(Vec::new()));
                },
                _ => {},
            }
        }
    }

    /// Adds a game key to a category, creating the category where needed; a
    /// key already listed is not added again.
    pub fn add_game_to_category(&mut self, category: &str, app_key: &str)
        requires
            old(self).wf(),
            writable(old(self).data),
            can_add_to_category(old(self).data, category@),
        ensures
            final(self).wf(),
            final(self).path == old(self).path,
            final(self).data is Object,
            forall|k: Seq<char>| k != "games"@ ==> #[trigger] member(final(self).data, k) == member(old(self).data, k),
            forall|k: Seq<char>|
                k != "customCategories"@ ==> #[trigger] member(games_of(final(self).data).unwrap(), k)
                    == match games_of(old(self).data) {
                    Some(Json::Object(g)) => lookup(g@, k),
                    _ => None,
                },
            custom_categories_of(final(self).data) matches Some(Json::Object(c)) && (forall|k: Seq<char>|
                k != category@ ==> #[trigger] lookup(c@, k) == lookup(
                    category_members_before(old(self).data),
                    k,
                )) && (lookup(c@, category@) matches Some(Json::Array(a)) && (if lists_key(
                category_list_before(old(self).data, category@),
                app_key@,
            ) {
                a@ == category_list_before(old(self).data, category@)
            } else {
                a@.drop_last() == category_list_before(old(self).data, category@) && a@.len() > 0
                    && as_str_view(a@.last()) == Some(app_key@)
            })),
    {
        self.ensure_games_object();
        let ghost mid = self.data;
        let ghost mut tbefore: Seq<(String, Json)> = Seq::empty();
        let ghost mut tafter: Seq<(String, Json)> = Seq::empty();
        let ghost mut gbefore: Seq<(String, Json)> = Seq::empty();
        let ghost mut gafter: Seq<(String, Json)> = Seq::empty();
        let ghost mut cbefore: Seq<(String, Json)> = Seq::empty();
        let ghost mut cafter: Seq<(String, Json)> = Seq::empty();
        let ghost mut abefore: Seq<Json> = Seq::empty();
        let ghost mut aafter: Seq<Json> = Seq::empty();
        match &mut self.data {
            Json::Object(top) => {
                match find_key(top, "games") {
                    Some(gi) => {
                        proof {
                            lemma_unique_lookup(top@, gi as int);
                        }
                        let ghost top0 = *top;
                        let gslot = value_mut(top, gi);
                        match gslot {
                            Json::Object(games) => {
                                let ghost g0 = *games;
                                let ci = ensure_key_unique(
                                    games,
                                    "customCategories",
                                    Json::Object(Vec::new()),
                                );
                                proof {
                                    lemma_unique_lookup(games@, ci as int);
                                }
                                let ghost g1 = *games;
                                let cslot = value_mut(games, ci);
                                match cslot {
                                    Json::Object(cats) => {
                                        let ghost c0 = *cats;
                                        let ai = ensure_key_unique(cats, category, Json::Array(Vec::new()));
                                        proof {
                                            lemma_unique_lookup(cats@, ai as int);
                                        }
                                        let ghost c1 = *cats;
                                        let aslot = value_mut(cats, ai);
                                        match aslot {
                                            Json::Array(arr) => {
                                                let ghost a0 = *arr;
                                                if !list_has_key(arr, app_key) {
                                                    arr.push(Json::Str(String::from_str(app_key)));
                                                    proof {
                                                        assert(arr@.drop_last() =~= a0@);
                                                    }
                                                }
                                                proof {
                                                    abefore = a0@;
                                                    aafter = arr@;
                                                }
                                            },
                                            _ => {},
                                        }
                                        proof {
                                            lemma_unique_update(c1@, ai as int, *final(aslot));
                                            cbefore = c0@;
                                            cafter = cats@;
                                        }
                                    },
                                    _ => {},
                                }
                                proof {
                                    lemma_unique_update(g1@, ci as int, *final(cslot));
                                    gbefore = g0@;
                                    gafter = games@;
                                }
                            },
                            _ => {},
                        }
                        proof {
                            lemma_unique_update(top0@, gi as int, *final(gslot));
                            tbefore = top0@;
                            tafter = top@;
                        }
                    },
                    None => {},
                }
            },
            _ => {},
        }
        proof {
            assert forall|k: Seq<char>| k != "games"@ implies #[trigger] member(self.data, k) == member(old(self).data, k) by {
                assert(member(mid, k) == member(old(self).data, k));
                assert(member(mid, k) == lookup(tbefore, k));
                assert(member(self.data, k) == lookup(tafter, k));
            }
        }
    }

    /// Replaces the custom categories, keeping the rest of the document.
    pub fn set_categories(&mut self, categories: Vec<(String, Json)>)
        requires
            old(self).wf(),
            writable(old(self).data),
            keys_unique(categories@),
        ensures
            final(self).wf(),
            final(self).path == old(self).path,
            final(self).data is Object,
            custom_categories_of(final(self).data) == Some(Json::Object(categories)),
            forall|k: Seq<char>| k != "games"@ ==> #[trigger] member(final(self).data, k) == member(old(self).data, k),
            forall|k: Seq<char>|
                k != "customCategories"@ ==> #[trigger] member(games_of(final(self).data).unwrap(), k)
                    == match games_of(old(self).data) {
                    Some(Json::Object(g)) => lookup(g@, k),
                    _ => None,
                },
    {
        self.ensure_games_object();
        let ghost mid = self.data;
        let ghost mut gbefore: Seq<(String, Json)> = Seq::empty();
        let ghost mut gafter: Seq<(String, Json)> = Seq::empty();
        let ghost mut tbefore: Seq<(String, Json)> = Seq::empty();
        let ghost mut tafter: Seq<(String, Json)> = Seq::empty();
        match &mut self.data {
            Json::Object(top) => {
                match find_key(top, "games") {
                    Some(gi) => {
                        proof {
                            lemma_unique_lookup(top@, gi as int);
                        }
                        let ghost top0 = *top;
                        let slot = value_mut(top, gi);
                        match slot {
                            Json::Object(games) => {
                                let ghost g0 = *games;
                                assoc_set(games, "customCategories", Json::Object(categories));
                                proof {
                                    gbefore = g0@;
                                    gafter = games@;
                                    assert(games_of(mid) == Some(Json::Object(g0)));
                                    if !(games_of(old(self).data) matches Some(Json::Object(_))) {
                                        assert forall|k: Seq<char>| !has_key(g0@, k) by {}
                                    }
                                }
                            },
                            _ => {},
                        }
                        proof {
                            lemma_unique_update(top0@, gi as int, *final(slot));
                            tbefore = top0@;
                            tafter = top@;
                        }
                    },
                    None => {},
                }
            },
            _ => {},
        }
        proof {
            assert(games_of(self.data) matches Some(Json::Object(g)) && g@ == gafter);
            assert forall|k: Seq<char>| k != "games"@ implies #[trigger] member(self.data, k) == member(old(self).data, k) by {
                assert(member(mid, k) == member(old(self).data, k));
                assert(member(mid, k) == lookup(tbefore, k));
                assert(member(self.data, k) == lookup(tafter, k));
            }
            assert(forall|k: Seq<char>| k != "customCategories"@ ==> lookup(gafter, k) == lookup(gbefore, k));
            assert(games_of(mid) matches Some(Json::Object(g)) && g@ == gbefore);
            assert forall|k: Seq<char>| k != "customCategories"@ implies #[trigger] lookup(gbefore, k) == match games_of(old(self).data) {
                Some(Json::Object(g)) => lookup(g@, k),
                _ => None,
            } by {
                if !(games_of(old(self).data) matches Some(Json::Object(_))) {
                    assert(gbefore.len() == 0);
                    assert(!has_key(gbefore, k));
                }
            }
            assert forall|k: Seq<char>| k != "customCategories"@ implies #[trigger] member(games_of(self.data).unwrap(), k)
                == match games_of(old(self).data) {
                Some(Json::Object(g)) => lookup(g@, k),
                _ => None,
            } by {
                assert(member(games_of(self.data).unwrap(), k) == lookup(gafter, k));
                assert(lookup(gafter, k) == lookup(gbefore, k));
            }
        }
    }
}

/// The members of `games.customCategories` that adding a game starts from:
/// none where `games` is not an object or has no categories object.
pub open spec fn category_members_before(d: Json) -> Seq<(String, Json)> {
    match games_of(d) {
        Some(Json::Object(_)) => match custom_categories_of(d) {
            Some(Json::Object(c)) => c@,
            _ => Seq::empty(),
        },
        _ => Seq::empty(),
    }
}

/// The game keys listed under `category` before adding a game.
pub open spec fn category_list_before(d: Json, category: Seq<char>) -> Seq<Json> {
    match lookup(category_members_before(d), category) {
        Some(Json::Array(a)) => a@,
        _ => Seq::empty(),
    }
}

/// A list of JSON values holds the string `k`.
pub open spec fn lists_key(a: Seq<Json>, k: Seq<char>) -> bool {
    exists|i: int| 0 <= i < a.len() && #[trigger] as_str_view(a[i]) == Some(k)
}

/// Adding a game to a category would not fail on the document: where `games`
/// is an object, its `customCategories` is an object, and the category in it
/// is an array.
pub open spec fn can_add_to_category(d: Json, category: Seq<char>) -> bool {
    games_of(d) matches Some(Json::Object(_)) ==> match custom_categories_of(d) {
        Some(Json::Object(c)) => (lookup(c@, category) matches Some(a) ==> a is Array),
        Some(_) => false,
        None => true,
    }
}

/// Whether a list holds the string `k`.
pub fn list_has_key(a: &Vec<Json>, k: &str) -> (r: bool)
    ensures
        r == lists_key(a@, k@),
{
    let n = a.len();
    let mut i: usize = 0;
    while i < n
        invariant
            n == a@.len(),
            i <= n,
            forall|j: int| 0 <= j < i ==> #[trigger] as_str_view(a@[j]) != Some(k@),
        decreases n - i,
    {
        match &a[i] {
            Json::Str(s) => {
                if same_key(s.as_str(), k) {
                    assert(as_str_view(a@[i as int]) == Some(k@));
                    return true;
                }
            },
            _ => {},
        }
        i = i + 1;
    }
    false
}

/// What `categories` reports after `set_categories(c)` is `c`: the
/// categories written are the categories read back.
pub proof fn law_categories_read_back(d: Json, c: Vec<(String, Json)>)
    requires
        custom_categories_of(d) == Some(Json::Object(c)),
    ensures
        categories_view(d) == json_pairs_view(c@),
{
}

/// After a game was added to a category, the category lists it, so adding it
/// again leaves the list as it is.
pub proof fn law_added_game_listed(before: Seq<Json>, after: Seq<Json>, key: Seq<char>)
    requires
        if lists_key(before, key) {
            after == before
        } else {
            after.drop_last() == before && after.len() > 0 && as_str_view(after.last()) == Some(key)
        },
    ensures
        lists_key(after, key),
{
    if !lists_key(before, key) {
        assert(as_str_view(after[after.len() - 1]) == Some(key));
    }
}

} // verus!
