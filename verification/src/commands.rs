//! The decisions of the command-line tool: which games a command works on,
//! how a classification is recorded, and the category lists written into
//! Heroic's configuration.
use vstd::prelude::*;
use vstd::string::*;

use crate::catalog::{
    after_ensure_named, after_register, display_name, display_name_spec, slug_of, slugify,
    CategoryEntry, CategoryRegistry, CategoryView,
};
use crate::games_store::{GameEntry, GamesStore};
use crate::heroic_config::{categories_view, custom_categories_of};
use crate::json::{
    json_pairs_view, json_seq_view, json_view, lemma_pairs_view_index, lemma_seq_view_push, Json,
    JsonNumber, JsonView,
};
use crate::heroic::games_view;
use crate::igdb::{Lookup, LookupAnswer};
use crate::models::{IgdbGame, IgdbIdName, LibraryGame, LibraryGameView};
use crate::text::{
    contains_text, decimal, distinct, eq_ignore_ascii_case, eq_ignore_ascii_case_spec, is_infix,
    law_infix_anywhere, law_infix_only_where_found,
    join_with, joined_with, lemma_with_unique_distinct, opt_text, u64_to_decimal, with_unique,
};
use crate::strmap::{
    assoc_map, assoc_set, contains_str, ensure_key, find_key, has_key, insert_new_sorted,
    keys_sorted, keys_unique, lemma_sorted_distinct, lemma_sorted_lookup, lemma_sorted_unique,
    lemma_unique_lookup, lemma_update_value, lookup, same_key, strs, value_mut,
};

verus! {

/// Appends `value` unless the list already holds it.
pub fn push_unique(vec: &mut Vec<String>, value: String)
    ensures
        strs(final(vec)@) == (if strs(old(vec)@).contains(value@) {
            strs(old(vec)@)
        } else {
            strs(old(vec)@).push(value@)
        }),
{
    if !contains_str(vec, value.as_str()) {
        let ghost before = vec@;
        vec.push(value);
        assert(strs(vec@) =~= strs(before).push(value@));
    }
}

/// Game `e` is filed under the category shown as `n`.
pub open spec fn files_under(cats: Map<Seq<char>, CategoryView>, e: GameEntry, n: Seq<char>) -> bool {
    exists|j: int| 0 <= j < e.categories@.len() && display_name_spec(cats, #[trigger] e.categories@[j]@) == n
}

/// The keys, in store order, of the games filed under the category shown as `n`.
pub open spec fn keys_under(
    games: Seq<(String, GameEntry)>,
    cats: Map<Seq<char>, CategoryView>,
    n: Seq<char>,
) -> Seq<Seq<char>>
    decreases games.len(),
{
    if games.len() == 0 {
        Seq::empty()
    } else {
        let rest = keys_under(games.drop_last(), cats, n);
        if files_under(cats, games.last().1, n) {
            rest.push(games.last().0@)
        } else {
            rest
        }
    }
}

/// The category lists of a store: each category that some game is filed
/// under, by the name it is shown with, maps to the keys of its games in store
/// order.
pub open spec fn rebuilt(games: Seq<(String, GameEntry)>, cats: Map<Seq<char>, CategoryView>) -> Map<
    Seq<char>,
    Seq<Seq<char>>,
> {
    Map::new(|n: Seq<char>| keys_under(games, cats, n).len() > 0, |n: Seq<char>| keys_under(games, cats, n))
}

/// A list of names with their lists of keys, as a map.
pub open spec fn lists_view(s: Seq<(String, Vec<String>)>) -> Map<Seq<char>, Seq<Seq<char>>> {
    assoc_map(s).map_values(|v: Vec<String>| strs(v@))
}

/// Game `e` is filed under `n` by one of its first `j` categories.
spec fn files_under_prefix(cats: Map<Seq<char>, CategoryView>, e: GameEntry, n: Seq<char>, j: int) -> bool {
    exists|k: int| 0 <= k < j && display_name_spec(cats, #[trigger] e.categories@[k]@) == n
}

proof fn lemma_prefix_step(cats: Map<Seq<char>, CategoryView>, e: GameEntry, x: Seq<char>, j: int)
    requires
        0 <= j < e.categories@.len(),
    ensures
        files_under_prefix(cats, e, x, j + 1) == (files_under_prefix(cats, e, x, j) || display_name_spec(
            cats,
            e.categories@[j]@,
        ) == x),
{
    if files_under_prefix(cats, e, x, j + 1) {
        let k = choose|k: int| 0 <= k < j + 1 && display_name_spec(cats, #[trigger] e.categories@[k]@) == x;
        if k < j {
            assert(files_under_prefix(cats, e, x, j));
        }
    }
    if display_name_spec(cats, e.categories@[j]@) == x {
        assert(files_under_prefix(cats, e, x, j + 1));
    }
    if files_under_prefix(cats, e, x, j) {
        let k = choose|k: int| 0 <= k < j && display_name_spec(cats, #[trigger] e.categories@[k]@) == x;
        assert(files_under_prefix(cats, e, x, j + 1));
    }
}

proof fn lemma_prefix_full(cats: Map<Seq<char>, CategoryView>, e: GameEntry, x: Seq<char>)
    ensures
        files_under_prefix(cats, e, x, e.categories@.len() as int) == files_under(cats, e, x),
{
}

/// The lists after the first `i` games and the first `j` categories of game `i`.
spec fn rebuilt_partial(
    games: Seq<(String, GameEntry)>,
    cats: Map<Seq<char>, CategoryView>,
    i: int,
    j: int,
) -> Map<Seq<char>, Seq<Seq<char>>> {
    Map::new(
        |n: Seq<char>|
            keys_under(games.take(i), cats, n).len() > 0 || files_under_prefix(cats, games[i].1, n, j),
        |n: Seq<char>|
            keys_under(games.take(i), cats, n) + if files_under_prefix(cats, games[i].1, n, j) {
                seq![games[i].0@]
            } else {
                Seq::empty()
            },
    )
}

/// Every key listed comes from the store.
proof fn lemma_keys_under_from(games: Seq<(String, GameEntry)>, cats: Map<Seq<char>, CategoryView>, n: Seq<char>, x: Seq<char>)
    requires
        keys_under(games, cats, n).contains(x),
    ensures
        exists|k: int| 0 <= k < games.len() && #[trigger] games[k].0@ == x,
    decreases games.len(),
{
    let rest = keys_under(games.drop_last(), cats, n);
    if rest.contains(x) {
        lemma_keys_under_from(games.drop_last(), cats, n, x);
        let k = choose|k: int| 0 <= k < games.drop_last().len() && #[trigger] games.drop_last()[k].0@ == x;
        assert(games[k].0@ == x);
    } else {
        let k = games.len() - 1;
        assert(games[k].0@ == x);
    }
}

/// The key of game `i` is not listed for the games before it.
proof fn lemma_key_not_before(games: Seq<(String, GameEntry)>, cats: Map<Seq<char>, CategoryView>, n: Seq<char>, i: int)
    requires
        keys_sorted(games),
        0 <= i < games.len(),
    ensures
        !keys_under(games.take(i), cats, n).contains(games[i].0@),
{
    if keys_under(games.take(i), cats, n).contains(games[i].0@) {
        lemma_keys_under_from(games.take(i), cats, n, games[i].0@);
        let k = choose|k: int| 0 <= k < games.take(i).len() && #[trigger] games.take(i)[k].0@ == games[i].0@;
        assert(games.take(i)[k] == games[k]);
        lemma_sorted_distinct(games, k, i);
    }
}

/// The category lists that the store and the catalog give, by category name.
pub fn rebuild_category_lists(store: &GamesStore, catalog: &CategoryRegistry) -> (r: Vec<(String, Vec<String>)>)
    requires
        store.wf(),
        catalog.wf(),
    ensures
        keys_sorted(r@),
        lists_view(r@) == rebuilt(store.data.games@, catalog.data.category_map()),
{
    let ghost games = store.data.games@;
    let ghost cats = catalog.data.category_map();
    let mut out: Vec<(String, Vec<String>)> = Vec::new();
    let n = store.data.games.len();
    let mut i: usize = 0;
    assert(lists_view(out@) =~= rebuilt(games.take(0), cats));
    while i < n
        invariant
            n == games.len(),
            games == store.data.games@,
            cats == catalog.data.category_map(),
            store.wf(),
            catalog.wf(),
            i <= n,
            keys_sorted(out@),
            lists_view(out@) == rebuilt(games.take(i as int), cats),
        decreases n - i,
    {
        let key = &store.data.games[i].0;
        let entry = &store.data.games[i].1;
        let m = entry.categories.len();
        let mut j: usize = 0;
        assert(lists_view(out@) =~= rebuilt_partial(games, cats, i as int, 0));
        while j < m
            invariant
                n == games.len(),
                games == store.data.games@,
                cats == catalog.data.category_map(),
                store.wf(),
                catalog.wf(),
                i < n,
                j <= m,
                m == entry.categories@.len(),
                *key == games[i as int].0,
                *entry == games[i as int].1,
                keys_sorted(out@),
                lists_view(out@) == rebuilt_partial(games, cats, i as int, j as int),
            decreases m - j,
        {
            let name = display_name(catalog, entry.categories[j].as_str());
            let ghost nm = name@;
            let ghost before = out@;
            let ghost part = rebuilt_partial(games, cats, i as int, j as int);
            let k = ensure_key(&mut out, name.as_str(), Vec::new());
            let ghost mid = out@;
            proof {
                lemma_sorted_lookup(mid, k as int);
                lemma_key_not_before(games, cats, nm, i as int);
                if has_key(before, nm) {
                    let t = choose|t: int| 0 <= t < before.len() && #[trigger] before[t].0@ == nm;
                    lemma_sorted_lookup(before, t);
                    lemma_sorted_unique(before);
                }
            }
            let arr = value_mut(&mut out, k);
            let ghost arr0 = *arr;
            proof {
                let expected = keys_under(games.take(i as int), cats, nm) + if files_under_prefix(
                    cats,
                    games[i as int].1,
                    nm,
                    j as int,
                ) {
                    seq![games[i as int].0@]
                } else {
                    Seq::<Seq<char>>::empty()
                };
                if has_key(before, nm) {
                    assert(strs(arr0@) == lists_view(before)[nm]);
                } else {
                    assert(!part.contains_key(nm));
                    assert(strs(arr0@) =~= expected);
                }
                assert(strs(arr0@) == expected);
            }
            if !contains_str(arr, key.as_str()) {
                arr.push(key.clone());
            }
            proof {
                let arr1 = *final(arr);
                let base = keys_under(games.take(i as int), cats, nm);
                assert(strs(arr1@) =~= base.push(games[i as int].0@)) by {
                    if !files_under_prefix(cats, games[i as int].1, nm, j as int) {
                        assert(strs(arr0@) =~= base);
                    } else {
                        assert(strs(arr0@).last() == games[i as int].0@);
                    }
                }
                lemma_update_value(mid, k as int, arr1);
                let s = mid.update(k as int, (mid[k as int].0, arr1));
                let next = rebuilt_partial(games, cats, i as int, j + 1);
                assert(display_name_spec(cats, entry.categories@[j as int]@) == nm);
                assert(assoc_map(s) =~= assoc_map(before).insert(nm, arr1));
                assert(lists_view(s) =~= lists_view(before).insert(nm, strs(arr1@)));
                assert forall|x: Seq<char>| #[trigger] lists_view(s).contains_key(x) == next.contains_key(x) by {
                    lemma_prefix_step(cats, games[i as int].1, x, j as int);
                }
                assert forall|x: Seq<char>| #[trigger] lists_view(s).contains_key(x) implies lists_view(s)[x]
                    == next[x] by {
                    lemma_prefix_step(cats, games[i as int].1, x, j as int);
                    if x == nm {
                        let base = keys_under(games.take(i as int), cats, nm);
                        assert(base.push(games[i as int].0@) =~= base + seq![games[i as int].0@]);
                    }
                }
                assert(lists_view(s) =~= next);
            }
            j = j + 1;
        }
        proof {
            let t = games.take(i + 1);
            assert(t.drop_last() =~= games.take(i as int));
            assert(t.last() == games[i as int]);
            assert forall|x: Seq<char>| #[trigger] keys_under(t, cats, x) == keys_under(
                games.take(i as int),
                cats,
                x,
            ) + if files_under_prefix(cats, games[i as int].1, x, m as int) {
                seq![games[i as int].0@]
            } else {
                Seq::<Seq<char>>::empty()
            } by {
                lemma_prefix_full(cats, games[i as int].1, x);
                if !files_under(cats, games[i as int].1, x) {
                    assert(keys_under(games.take(i as int), cats, x) =~= keys_under(
                        games.take(i as int),
                        cats,
                        x,
                    ) + Seq::<Seq<char>>::empty());
                } else {
                    assert(keys_under(t, cats, x) =~= keys_under(games.take(i as int), cats, x)
                        + seq![games[i as int].0@]);
                }
            }
            assert(lists_view(out@) =~= rebuilt(t, cats));
        }
        i = i + 1;
    }
    assert(games.take(n as int) =~= games);
    out
}

/// A list of texts as a JSON array of strings.
pub open spec fn str_list_view(ks: Seq<Seq<char>>) -> JsonView {
    JsonView::Array(ks.map_values(|k: Seq<char>| JsonView::Str(k)))
}

/// The strings of a list as JSON string values.
pub fn string_array(v: &Vec<String>) -> (r: Vec<Json>)
    ensures
        JsonView::Array(json_seq_view(r@)) == str_list_view(strs(v@)),
{
    let mut out: Vec<Json> = Vec::new();
    let n = v.len();
    let mut i: usize = 0;
    while i < n
        invariant
            n == v@.len(),
            i <= n,
            json_seq_view(out@) == strs(v@.take(i as int)).map_values(|k: Seq<char>| JsonView::Str(k)),
        decreases n - i,
    {
        let x = Json::Str(v[i].clone());
        proof {
            lemma_seq_view_push(out@, x);
            assert(strs(v@.take(i + 1)).map_values(|k: Seq<char>| JsonView::Str(k)) =~= strs(
                v@.take(i as int),
            ).map_values(|k: Seq<char>| JsonView::Str(k)).push(json_view(x)));
        }
        out.push(x);
        i = i + 1;
    }
    assert(v@.take(n as int) =~= v@);
    out
}

/// The custom categories to write into Heroic's configuration: for each
/// category some stored game is filed under, by its shown name and in name
/// order, the keys of its games in store order.
pub fn rebuild_categories(store: &GamesStore, catalog: &CategoryRegistry) -> (r: Vec<(String, Json)>)
    requires
        store.wf(),
        catalog.wf(),
    ensures
        keys_sorted(r@),
        forall|n: Seq<char>| #[trigger] has_key(r@, n) == rebuilt(store.data.games@, catalog.data.category_map()).contains_key(n),
        forall|i: int| 0 <= i < r@.len() ==> json_view(#[trigger] r@[i].1) == str_list_view(
            rebuilt(store.data.games@, catalog.data.category_map())[r@[i].0@],
        ),
{
    let lists = rebuild_category_lists(store, catalog);
    let ghost target = rebuilt(store.data.games@, catalog.data.category_map());
    let mut out: Vec<(String, Json)> = Vec::new();
    let n = lists.len();
    let mut i: usize = 0;
    while i < n
        invariant
            n == lists@.len(),
            i <= n,
            keys_sorted(lists@),
            lists_view(lists@) == target,
            out@.len() == i,
            forall|t: int| 0 <= t < i ==> #[trigger] out@[t].0@ == lists@[t].0@,
            forall|t: int| 0 <= t < i ==> json_view(#[trigger] out@[t].1) == str_list_view(target[out@[t].0@]),
        decreases n - i,
    {
        let arr = string_array(&lists[i].1);
        proof {
            lemma_sorted_lookup(lists@, i as int);
        }
        out.push((lists[i].0.clone(), Json::Array(arr)));
        i = i + 1;
    }
    proof {
        assert forall|a: int, b: int| 0 <= a < b < out@.len() implies crate::strmap::key_lt(
            #[trigger] out@[a].0@,
            #[trigger] out@[b].0@,
        ) by {
            assert(out@[a].0@ == lists@[a].0@ && out@[b].0@ == lists@[b].0@);
        }
        assert forall|x: Seq<char>| #[trigger] has_key(out@, x) == target.contains_key(x) by {
            if has_key(out@, x) {
                let t = choose|t: int| 0 <= t < out@.len() && #[trigger] out@[t].0@ == x;
                assert(lists@[t].0@ == x);
            }
            if has_key(lists@, x) {
                let t = choose|t: int| 0 <= t < lists@.len() && #[trigger] lists@[t].0@ == x;
                assert(out@[t].0@ == x);
            }
        }
    }
    out
}

/// The distinct elements of `s` in order of first appearance.
pub open spec fn dedup(s: Seq<Seq<char>>) -> Seq<Seq<char>>
    decreases s.len(),
{
    if s.len() == 0 {
        s
    } else {
        with_unique(dedup(s.drop_last()), s.last())
    }
}

/// The title stored for a game key; empty where the store lacks the key.
pub open spec fn stored_title(m: Map<Seq<char>, GameEntry>, key: Seq<char>) -> Seq<char> {
    if m.contains_key(key) {
        m[key].title@
    } else {
        Seq::empty()
    }
}

/// The category slugs stored for a game key; none where the store lacks it.
pub open spec fn stored_categories(m: Map<Seq<char>, GameEntry>, key: Seq<char>) -> Seq<Seq<char>> {
    if m.contains_key(key) {
        strs(m[key].categories@)
    } else {
        Seq::empty()
    }
}

/// The id a source has stored for a game key.
pub open spec fn stored_source(m: Map<Seq<char>, GameEntry>, key: Seq<char>, src: Seq<char>) -> Option<Json> {
    if m.contains_key(key) {
        lookup(m[key].sources@, src)
    } else {
        None
    }
}

/// The title a game keeps: the stored one, or `title` where none is stored.
pub open spec fn kept_title(m: Map<Seq<char>, GameEntry>, key: Seq<char>, title: Seq<char>) -> Seq<char> {
    if stored_title(m, key).len() == 0 {
        title
    } else {
        stored_title(m, key)
    }
}

/// Files the game `key` under the category `slug`, giving it the title
/// `title` where it has none yet.
pub fn file_game_under(store: &mut GamesStore, key: &str, title: &str, slug: String)
    requires
        old(store).wf(),
    ensures
        final(store).wf(),
        final(store).path == old(store).path,
        final(store).data.version == old(store).data.version,
        final(store).game_map().dom() == old(store).game_map().dom().insert(key@),
        forall|k: Seq<char>| k != key@ && #[trigger] old(store).game_map().contains_key(k) ==> final(store).game_map()[k]
            == old(store).game_map()[k],
        final(store).game_map()[key@].title@ == kept_title(old(store).game_map(), key@, title@),
        strs(final(store).game_map()[key@].categories@) == with_unique(
            stored_categories(old(store).game_map(), key@),
            slug@,
        ),
        forall|src: Seq<char>| #[trigger] lookup(final(store).game_map()[key@].sources@, src) == stored_source(
            old(store).game_map(),
            key@,
            src,
        ),
{
    let entry = store.game(key);
    if entry.title.as_str().is_empty() {
        entry.title = String::from_str(title);
    }
    push_unique(&mut entry.categories, slug);
}

/// The slugs of the names of IGDB records, in order.
pub open spec fn slugs_of(ids: Seq<IgdbIdName>) -> Seq<Seq<char>> {
    ids.map_values(|c: IgdbIdName| slug_of(c.name@))
}

/// The catalog after registering each record of `ids`, in order, under IGDB
/// and `dim`.
pub open spec fn register_all(
    cats: Map<Seq<char>, CategoryView>,
    ids: Seq<IgdbIdName>,
    dim: Seq<char>,
) -> Map<Seq<char>, CategoryView>
    decreases ids.len(),
{
    if ids.len() == 0 {
        cats
    } else {
        let c = ids.last();
        after_register(
            register_all(cats, ids.drop_last(), dim),
            slug_of(c.name@),
            c.name@,
            "igdb"@,
            dim,
            decimal(c.id as nat),
        )
    }
}

/// The category slugs of an IGDB game: those of its genres, then of its
/// themes, each once.
pub open spec fn found_slugs(found: IgdbGame) -> Seq<Seq<char>> {
    dedup(slugs_of(found.genres@) + slugs_of(found.themes@))
}

/// Registers each record under IGDB and `dim`, collecting their slugs.
fn register_records(catalog: &mut CategoryRegistry, ids: &Vec<IgdbIdName>, dim: &str, slugs: &mut Vec<String>)
    requires
        old(catalog).wf(),
        distinct(strs(old(slugs)@)),
    ensures
        final(catalog).wf(),
        final(catalog).path == old(catalog).path,
        final(catalog).data.version == old(catalog).data.version,
        final(catalog).data.category_map() == register_all(old(catalog).data.category_map(), ids@, dim@),
        strs(final(slugs)@) == dedup(strs(old(slugs)@) + slugs_of(ids@)),
{
    let ghost start = strs(slugs@);
    let n = ids.len();
    let mut i: usize = 0;
    proof {
        assert(ids@.take(0) =~= Seq::<IgdbIdName>::empty());
        assert(start + slugs_of(ids@.take(0)) =~= start);
        lemma_dedup_identity(start);
    }
    while i < n
        invariant
            n == ids@.len(),
            i <= n,
            catalog.wf(),
            catalog.path == old(catalog).path,
            catalog.data.version == old(catalog).data.version,
            catalog.data.category_map() == register_all(old(catalog).data.category_map(), ids@.take(i as int), dim@),
            strs(slugs@) == dedup(start + slugs_of(ids@.take(i as int))),
            start == strs(old(slugs)@),
        decreases n - i,
    {
        let c = &ids[i];
        let slug = slugify(c.name.as_str());
        let id = u64_to_decimal(c.id);
        let r = catalog.register(slug.as_str(), c.name.as_str(), "igdb", dim, id.as_str());
        push_unique(slugs, r);
        proof {
            let t = ids@.take(i + 1);
            assert(t.drop_last() =~= ids@.take(i as int));
            assert(t.last() == ids@[i as int]);
            let a = start + slugs_of(ids@.take(i as int));
            assert(start + slugs_of(t) =~= a.push(slug_of(c.name@)));
            assert((start + slugs_of(t)).drop_last() =~= a);
        }
        i = i + 1;
    }
    assert(ids@.take(n as int) =~= ids@);
}

/// `dedup` gives distinct elements.
proof fn lemma_dedup_distinct(s: Seq<Seq<char>>)
    ensures
        distinct(dedup(s)),
    decreases s.len(),
{
    if s.len() > 0 {
        lemma_dedup_distinct(s.drop_last());
        lemma_with_unique_distinct(dedup(s.drop_last()), s.last());
    }
}

/// `dedup` keeps a list whose elements are distinct.
proof fn lemma_dedup_identity(s: Seq<Seq<char>>)
    requires
        distinct(s),
    ensures
        dedup(s) == s,
    decreases s.len(),
{
    if s.len() > 0 {
        let p = s.drop_last();
        assert(distinct(p)) by {
            assert forall|i: int, j: int| 0 <= i < j < p.len() implies #[trigger] p[i] != #[trigger] p[j] by {
                assert(p[i] == s[i] && p[j] == s[j]);
            }
        }
        lemma_dedup_identity(p);
        assert(!p.contains(s.last())) by {
            if p.contains(s.last()) {
                let k = choose|k: int| 0 <= k < p.len() && p[k] == s.last();
                assert(s[k] == s[s.len() - 1]);
            }
        }
        assert(p.push(s.last()) =~= s);
    }
}

/// Removing repeats first and then after appending more gives what removing
/// them once gives.
proof fn lemma_dedup_append(a: Seq<Seq<char>>, b: Seq<Seq<char>>)
    ensures
        dedup(dedup(a) + b) == dedup(a + b),
    decreases b.len(),
{
    if b.len() == 0 {
        assert(dedup(a) + b =~= dedup(a));
        assert(a + b =~= a);
        lemma_dedup_distinct(a);
        lemma_dedup_identity(dedup(a));
    } else {
        let bp = b.drop_last();
        lemma_dedup_append(a, bp);
        assert((dedup(a) + b).drop_last() =~= dedup(a) + bp);
        assert((a + b).drop_last() =~= a + bp);
        assert((dedup(a) + b).last() == b.last());
        assert((a + b).last() == b.last());
    }
}

/// Records what IGDB answered for a game: registers its genres and themes in
/// the catalog, stores their slugs as the game's categories and IGDB's id as
/// its `igdb` source, gives it `title` where it has none, and tells whether
/// any category was found.
pub fn record_match(
    catalog: &mut CategoryRegistry,
    store: &mut GamesStore,
    key: &str,
    title: &str,
    found: &IgdbGame,
) -> (classified: bool)
    requires
        old(catalog).wf(),
        old(store).wf(),
    ensures
        final(catalog).wf(),
        final(store).wf(),
        final(catalog).path == old(catalog).path,
        final(store).path == old(store).path,
        final(catalog).data.version == old(catalog).data.version,
        final(store).data.version == old(store).data.version,
        final(catalog).data.category_map() == register_all(
            register_all(old(catalog).data.category_map(), found.genres@, "genres"@),
            found.themes@,
            "themes"@,
        ),
        classified == (found_slugs(*found).len() > 0),
        final(store).game_map().dom() == old(store).game_map().dom().insert(key@),
        forall|k: Seq<char>| k != key@ && #[trigger] old(store).game_map().contains_key(k) ==> final(store).game_map()[k]
            == old(store).game_map()[k],
        final(store).game_map()[key@].title@ == kept_title(old(store).game_map(), key@, title@),
        strs(final(store).game_map()[key@].categories@) == found_slugs(*found),
        lookup(final(store).game_map()[key@].sources@, "igdb"@) == Some(
            Json::Number(JsonNumber::PosInt(found.id)),
        ),
        forall|src: Seq<char>| src != "igdb"@ ==> #[trigger] lookup(final(store).game_map()[key@].sources@, src)
            == stored_source(old(store).game_map(), key@, src),
{
    let mut slugs: Vec<String> = Vec::new();
    proof {
        assert(strs(slugs@) =~= Seq::<Seq<char>>::empty());
    }
    register_records(catalog, &found.genres, "genres", &mut slugs);
    proof {
        let g = slugs_of(found.genres@);
        assert(Seq::<Seq<char>>::empty() + g =~= g);
        lemma_dedup_distinct(g);
    }
    register_records(catalog, &found.themes, "themes", &mut slugs);
    proof {
        lemma_dedup_append(slugs_of(found.genres@), slugs_of(found.themes@));
        assert(strs(slugs@) == found_slugs(*found));
    }
    let classified = slugs.len() > 0;
    let entry = store.game(key);
    if entry.title.as_str().is_empty() {
        entry.title = String::from_str(title);
    }
    assoc_set(&mut entry.sources, "igdb", Json::Number(JsonNumber::PosInt(found.id)));
    entry.categories = slugs;
    classified
}

/// A category whose name IGDB should supply: IGDB knows it, and it has no
/// name or only its slug as name.
pub open spec fn needs_heal(slug: Seq<char>, e: CategoryView) -> bool {
    e.sources.contains_key("igdb"@) && (e.name.len() == 0 || e.name == slug)
}

/// The slugs, in catalog order, of the categories whose name IGDB should supply.
pub open spec fn heal_pending(s: Seq<(String, CategoryEntry)>) -> Seq<Seq<char>>
    decreases s.len(),
{
    if s.len() == 0 {
        Seq::empty()
    } else {
        let rest = heal_pending(s.drop_last());
        if needs_heal(s.last().0@, s.last().1@) {
            rest.push(s.last().0@)
        } else {
            rest
        }
    }
}

/// The slugs of the categories whose name IGDB should supply.
pub fn heal_candidates(catalog: &CategoryRegistry) -> (r: Vec<String>)
    requires
        catalog.wf(),
    ensures
        strs(r@) == heal_pending(catalog.data.categories@),
{
    let cats = &catalog.data.categories;
    let mut out: Vec<String> = Vec::new();
    let n = cats.len();
    let mut i: usize = 0;
    assert(strs(out@) =~= heal_pending(cats@.take(0)));
    while i < n
        invariant
            n == cats@.len(),
            cats == catalog.data.categories,
            catalog.wf(),
            i <= n,
            strs(out@) == heal_pending(cats@.take(i as int)),
        decreases n - i,
    {
        let slug = &cats[i].0;
        let e = &cats[i].1;
        proof {
            assert(e.wf());
            if has_key(e.sources@, "igdb"@) {
                let k = choose|k: int| 0 <= k < e.sources@.len() && #[trigger] e.sources@[k].0@ == "igdb"@;
                lemma_sorted_lookup(e.sources@, k);
            }
        }
        let has_igdb = find_key(&e.sources, "igdb").is_some();
        let unnamed = e.name.as_str().is_empty() || same_key(e.name.as_str(), slug.as_str());
        let ghost before = out@;
        if has_igdb && unnamed {
            out.push(slug.clone());
        }
        proof {
            let t = cats@.take(i + 1);
            assert(t.drop_last() =~= cats@.take(i as int));
            assert(t.last() == cats@[i as int]);
            if has_igdb && unnamed {
                assert(strs(out@) =~= strs(before).push(slug@));
            }
        }
        i = i + 1;
    }
    assert(cats@.take(n as int) =~= cats@);
    out
}

/// The catalog after giving each pending slug, in order, the name `names`
/// holds for it, where it holds one.
pub open spec fn renamed(
    cats: Map<Seq<char>, CategoryView>,
    pending: Seq<Seq<char>>,
    names: Seq<(String, String)>,
) -> Map<Seq<char>, CategoryView>
    decreases pending.len(),
{
    if pending.len() == 0 {
        cats
    } else {
        let m = renamed(cats, pending.drop_last(), names);
        match lookup(names, pending.last()) {
            Some(n) => after_ensure_named(m, pending.last(), n@),
            None => m,
        }
    }
}

/// How many pending slugs `names` holds a name for.
pub open spec fn count_named(pending: Seq<Seq<char>>, names: Seq<(String, String)>) -> nat
    decreases pending.len(),
{
    if pending.len() == 0 {
        0
    } else {
        count_named(pending.drop_last(), names) + if lookup(names, pending.last()) is Some {
            1nat
        } else {
            0nat
        }
    }
}

/// Gives each pending category the name IGDB returned for it, and tells how
/// many were renamed.
pub fn apply_canonical_names(
    catalog: &mut CategoryRegistry,
    pending: &Vec<String>,
    names: &Vec<(String, String)>,
) -> (fixed: usize)
    requires
        old(catalog).wf(),
        keys_unique(names@),
        forall|i: int| 0 <= i < pending@.len() ==> old(catalog).data.category_map().contains_key(
            #[trigger] pending@[i]@,
        ),
    ensures
        final(catalog).wf(),
        final(catalog).path == old(catalog).path,
        final(catalog).data.version == old(catalog).data.version,
        final(catalog).data.category_map() == renamed(old(catalog).data.category_map(), strs(pending@), names@),
        fixed == count_named(strs(pending@), names@),
{
    let n = pending.len();
    let mut fixed: usize = 0;
    let mut i: usize = 0;
    assert(strs(pending@).take(0) =~= Seq::<Seq<char>>::empty());
    while i < n
        invariant
            n == pending@.len(),
            i <= n,
            fixed <= i,
            keys_unique(names@),
            catalog.wf(),
            catalog.path == old(catalog).path,
            catalog.data.version == old(catalog).data.version,
            forall|k: int| 0 <= k < pending@.len() ==> old(catalog).data.category_map().contains_key(
                #[trigger] pending@[k]@,
            ),
            catalog.data.category_map() == renamed(old(catalog).data.category_map(), strs(pending@).take(i as int), names@),
            fixed == count_named(strs(pending@).take(i as int), names@),
        decreases n - i,
    {
        let slug = &pending[i];
        let ghost t = strs(pending@).take(i + 1);
        proof {
            assert(t.drop_last() =~= strs(pending@).take(i as int));
            assert(t.last() == slug@);
        }
        match find_key(names, slug.as_str()) {
            Some(k) => {
                proof {
                    lemma_unique_lookup(names@, k as int);
                }
                catalog.ensure_named(slug.as_str(), names[k].1.as_str());
                fixed = fixed + 1;
            },
            None => {},
        }
        i = i + 1;
    }
    assert(strs(pending@).take(n as int) =~= strs(pending@));
    fixed
}

/// The name of a Unicode-aware lower-casing of a text.
pub uninterp spec fn unicode_lowercase(s: Seq<char>) -> Seq<char>;

/// `str::to_lowercase`: the text in lower case by Unicode's rules; the
/// result is claimed to be `unicode_lowercase` of the text, a function of the
/// text alone.
#[verifier::external_body]
pub(crate) fn to_lowercase(s: &str) -> (r: String)
    ensures
        r@ == unicode_lowercase(s@),
{
    s.to_lowercase()
}

/// A game is listed: it runs under `runner` where one is given, is installed
/// where `installed` asks for it, and its lower-cased title contains the
/// lower-cased query where one is given.
pub open spec fn listed(
    g: LibraryGameView,
    runner: Option<Seq<char>>,
    installed: bool,
    lowered_query: Option<Seq<char>>,
    lowered_title: Seq<char>,
) -> bool {
    &&& (runner matches Some(r) ==> g.runner == r)
    &&& (installed ==> g.is_installed)
    &&& (lowered_query matches Some(q) ==> is_infix(q, lowered_title))
}

/// Whether a game is listed, given its lower-cased title.
pub fn game_listed(
    g: &LibraryGame,
    runner: &Option<String>,
    installed: bool,
    lowered_query: &Option<String>,
    lowered_title: &str,
) -> (r: bool)
    ensures
        r == listed(
            g@,
            opt_text(*runner),
            installed,
            opt_text(*lowered_query),
            lowered_title@,
        ),
{
    let runner_ok = match runner {
        Some(r) => same_key(g.runner.as_str(), r.as_str()),
        None => true,
    };
    let query_ok = match lowered_query {
        Some(q) => contains_text(lowered_title, q.as_str()),
        None => true,
    };
    runner_ok && (!installed || g.is_installed) && query_ok
}

/// The games that `list` shows, in library order.
pub fn list_games(
    games: &Vec<LibraryGame>,
    runner: Option<String>,
    installed: bool,
    search: Option<String>,
) -> (r: Vec<LibraryGame>)
    ensures
        games_view(r@) == games_view(games@).filter(
            |g: LibraryGameView|
                listed(
                    g,
                    opt_text(runner),
                    installed,
                    match opt_text(search) {
                        Some(x) => Some(unicode_lowercase(x)),
                        None => None,
                    },
                    unicode_lowercase(g.title),
                ),
        ),
{
    let query = match &search {
        Some(s) => Some(to_lowercase(s.as_str())),
        None => None,
    };
    let ghost rv = opt_text(runner);
    let ghost qv = match opt_text(search) {
        Some(x) => Some(unicode_lowercase(x)),
        None => None::<Seq<char>>,
    };
    let ghost pred = |g: LibraryGameView| listed(g, rv, installed, qv, unicode_lowercase(g.title));
    let mut out: Vec<LibraryGame> = Vec::new();
    let n = games.len();
    let mut i: usize = 0;
    proof {
        reveal_with_fuel(Seq::<_>::filter, 1);
    }
    assert(games_view(out@) =~= games_view(games@).take(0).filter(pred));
    while i < n
        invariant
            n == games@.len(),
            i <= n,
            qv == opt_text(query),
            rv == opt_text(runner),
            pred == (|g: LibraryGameView| listed(g, rv, installed, qv, unicode_lowercase(g.title))),
            games_view(out@) == games_view(games@).take(i as int).filter(pred),
        decreases n - i,
    {
        let g = &games[i];
        let lowered = to_lowercase(g.title.as_str());
        let keep = game_listed(g, &runner, installed, &query, lowered.as_str());
        let ghost before = out@;
        if keep {
            out.push(g.duplicate());
        }
        proof {
            let t = games_view(games@).take(i + 1);
            assert(t.drop_last() =~= games_view(games@).take(i as int));
            assert(t.last() == g@);
            assert(keep == pred(g@));
            reveal_with_fuel(Seq::<_>::filter, 1);
            assert(t.filter(pred) == (if pred(t.last()) {
                t.drop_last().filter(pred).push(t.last())
            } else {
                t.drop_last().filter(pred)
            }));
            if keep {
                assert(games_view(out@) =~= games_view(before).push(g@));
            }
        }
        i = i + 1;
    }
    assert(games_view(games@).take(n as int) =~= games_view(games@));
    assert(pred =~= (|g: LibraryGameView|
        listed(
            g,
            opt_text(runner),
            installed,
            match opt_text(search) {
                Some(x) => Some(unicode_lowercase(x)),
                None => None,
            },
            unicode_lowercase(g.title),
        )));
    out
}

/// The key Heroic files a game under: `{app_name}_{runner}`.
pub open spec fn game_key_view(g: LibraryGameView) -> Seq<char> {
    joined_with(g.app_name, '_', g.runner)
}

/// The key Heroic files a game under.
pub fn game_key(g: &LibraryGame) -> (r: String)
    ensures
        r@ == game_key_view(g@),
{
    join_with(g.app_name.as_str(), '_', g.runner.as_str())
}

/// The game a user names: the first whose key is the name, else the first
/// whose title equals it ignoring ASCII case, else none.
pub fn resolve_game(games: &Vec<LibraryGame>, game: &str) -> (r: Option<usize>)
    ensures
        match r {
            Some(i) => i < games@.len() && (game_key_view(games@[i as int]@) == game@ && (forall|j: int|
                0 <= j < i ==> game_key_view(#[trigger] games@[j]@) != game@) || (forall|j: int|
                0 <= j < games@.len() ==> game_key_view(#[trigger] games@[j]@) != game@)
                && eq_ignore_ascii_case_spec(games@[i as int].title@, game@) && (forall|j: int|
                0 <= j < i ==> !eq_ignore_ascii_case_spec(#[trigger] games@[j].title@, game@))),
            None => forall|j: int|
                0 <= j < games@.len() ==> game_key_view(#[trigger] games@[j]@) != game@
                    && !eq_ignore_ascii_case_spec(games@[j].title@, game@),
        },
{
    let n = games.len();
    let mut i: usize = 0;
    while i < n
        invariant
            n == games@.len(),
            i <= n,
            forall|j: int| 0 <= j < i ==> game_key_view(#[trigger] games@[j]@) != game@,
        decreases n - i,
    {
        let key = game_key(&games[i]);
        if same_key(key.as_str(), game) {
            return Some(i);
        }
        i = i + 1;
    }
    let mut i: usize = 0;
    while i < n
        invariant
            n == games@.len(),
            i <= n,
            forall|j: int| 0 <= j < n ==> game_key_view(#[trigger] games@[j]@) != game@,
            forall|j: int| 0 <= j < i ==> !eq_ignore_ascii_case_spec(#[trigger] games@[j].title@, game@),
        decreases n - i,
    {
        if eq_ignore_ascii_case(games[i].title.as_str(), game) {
            return Some(i);
        }
        i = i + 1;
    }
    None
}

/// A game matches a `generate` filter: its key is the filter, or its title
/// equals it ignoring ASCII case.
pub open spec fn matches_filter(g: LibraryGameView, filter: Seq<char>) -> bool {
    game_key_view(g) == filter || eq_ignore_ascii_case_spec(g.title, filter)
}

/// The games `generate` works on: those matching the filter where one is
/// given, else all, in library order.
pub fn select_games(games: &Vec<LibraryGame>, filter: Option<&str>) -> (r: Vec<LibraryGame>)
    ensures
        games_view(r@) == match filter {
            Some(f) => games_view(games@).filter(|g: LibraryGameView| matches_filter(g, f@)),
            None => games_view(games@),
        },
{
    let mut out: Vec<LibraryGame> = Vec::new();
    let n = games.len();
    let mut i: usize = 0;
    let ghost fv = match filter {
        Some(f) => f@,
        None => Seq::<char>::empty(),
    };
    let ghost pred = |g: LibraryGameView| filter is None || matches_filter(g, fv);
    proof {
        reveal_with_fuel(Seq::<_>::filter, 1);
    }
    assert(games_view(out@) =~= games_view(games@).take(0).filter(pred));
    while i < n
        invariant
            n == games@.len(),
            i <= n,
            fv == match filter {
                Some(f) => f@,
                None => Seq::<char>::empty(),
            },
            pred == (|g: LibraryGameView| filter is None || matches_filter(g, fv)),
            games_view(out@) == games_view(games@).take(i as int).filter(pred),
        decreases n - i,
    {
        let g = &games[i];
        let keep = match filter {
            Some(f) => {
                let key = game_key(g);
                same_key(key.as_str(), f) || eq_ignore_ascii_case(g.title.as_str(), f)
            },
            None => true,
        };
        let ghost before = out@;
        if keep {
            out.push(g.duplicate());
        }
        proof {
            let t = games_view(games@).take(i + 1);
            assert(t.drop_last() =~= games_view(games@).take(i as int));
            assert(t.last() == g@);
            assert(keep == pred(g@));
            reveal_with_fuel(Seq::<_>::filter, 1);
            assert(t.filter(pred) == (if pred(t.last()) {
                t.drop_last().filter(pred).push(t.last())
            } else {
                t.drop_last().filter(pred)
            }));
            if keep {
                assert(games_view(out@) =~= games_view(before).push(g@));
            }
        }
        i = i + 1;
    }
    proof {
        assert(games_view(games@).take(n as int) =~= games_view(games@));
        if filter is None {
            lemma_filter_all(games_view(games@), pred);
        }
        assert(pred =~= (|g: LibraryGameView| filter is None || matches_filter(g, fv)));
        if let Some(f) = filter {
            assert(pred =~= (|g: LibraryGameView| matches_filter(g, f@)));
        }
    }
    out
}

proof fn lemma_filter_all(s: Seq<LibraryGameView>, p: spec_fn(LibraryGameView) -> bool)
    requires
        forall|x: LibraryGameView| #[trigger] p(x),
    ensures
        s.filter(p) == s,
    decreases s.len(),
{
    reveal_with_fuel(Seq::<_>::filter, 1);
    if s.len() > 0 {
        lemma_filter_all(s.drop_last(), p);
        assert(s.drop_last().push(s.last()) =~= s);
    }
}

/// How many of the selected games `generate` processes: all of them where a
/// filter chose them, else the first `limit` where a limit is given.
pub fn games_to_process(total: usize, limit: usize, filtered: bool) -> (r: usize)
    ensures
        r == if filtered {
            total
        } else if limit > 0 {
            if limit < total {
                limit
            } else {
                total
            }
        } else {
            total
        },
{
    if filtered {
        total
    } else if limit > 0 {
        if limit < total {
            limit
        } else {
            total
        }
    } else {
        total
    }
}

/// How a game fared in `generate`.
#[derive(PartialEq, Eq, Structural, Clone, Copy, Debug)]
pub enum GameOutcome {
    /// IGDB found it and gave it at least one category.
    Classified,
    /// IGDB did not find it, or found it without genres or themes.
    Miss,
    /// The request failed; such a game counts neither as classified nor as
    /// a miss.
    Failed,
}

/// How a game fared, given IGDB's final answer and, where it found the game,
/// whether any category came with it.
pub fn game_outcome(answer: LookupAnswer, has_categories: bool) -> (r: GameOutcome)
    ensures
        r == match answer {
            LookupAnswer::Found => if has_categories {
                GameOutcome::Classified
            } else {
                GameOutcome::Miss
            },
            LookupAnswer::NotFound => GameOutcome::Miss,
            LookupAnswer::Failed => GameOutcome::Failed,
        },
{
    match answer {
        LookupAnswer::Found => if has_categories {
            GameOutcome::Classified
        } else {
            GameOutcome::Miss
        },
        LookupAnswer::NotFound => GameOutcome::Miss,
        LookupAnswer::Failed => GameOutcome::Failed,
    }
}

/// Whether `generate` stops before any work: a game was asked for and no game
/// of the library matched it.
pub fn generate_stops(filtered: bool, selected: usize) -> (r: bool)
    ensures
        r == (filtered && selected == 0),
{
    filtered && selected == 0
}

/// The counts `generate` reports at its end: games classified, games looked up
/// by the IGDB id the store had for them, and the positions (among the games
/// processed) of those IGDB had no data for, in the order they came.
pub struct GenerateTally {
    pub classified: usize,
    pub by_id: usize,
    pub misses: Vec<usize>,
}

impl GenerateTally {
    /// Nothing counted yet.
    pub fn new() -> (r: GenerateTally)
        ensures
            r.classified == 0,
            r.by_id == 0,
            r.misses@ == Seq::<usize>::empty(),
    {
        GenerateTally { classified: 0, by_id: 0, misses: Vec::new() }
    }

    /// Counts a game's first lookup: one more game looked up by id where that
    /// lookup goes by id.
    pub fn count_lookup(&mut self, lookup: Lookup)
        requires
            old(self).by_id < usize::MAX,
        ensures
            final(self).by_id == old(self).by_id + (if lookup is ById {
                1int
            } else {
                0int
            }),
            final(self).classified == old(self).classified,
            final(self).misses@ == old(self).misses@,
    {
        if let Lookup::ById(_) = lookup {
            self.by_id = self.by_id + 1;
        }
    }

    /// Counts how the game at position `game` fared: a classified game adds
    /// one to the classified ones, a miss is listed, a failed request counts
    /// nowhere.
    pub fn count_outcome(&mut self, game: usize, outcome: GameOutcome)
        requires
            old(self).classified < usize::MAX,
        ensures
            final(self).classified == old(self).classified + (if outcome == GameOutcome::Classified {
                1int
            } else {
                0int
            }),
            final(self).misses@ == (if outcome == GameOutcome::Miss {
                old(self).misses@.push(game)
            } else {
                old(self).misses@
            }),
            final(self).by_id == old(self).by_id,
    {
        match outcome {
            GameOutcome::Classified => {
                self.classified = self.classified + 1;
            },
            GameOutcome::Miss => {
                self.misses.push(game);
            },
            GameOutcome::Failed => {},
        }
    }
}

/// How many game keys a category value lists: the length of an array, else 0.
pub open spec fn listed_count(v: Json) -> usize {
    match v {
        Json::Array(a) => a@.len() as usize,
        _ => 0,
    }
}

/// The categories with how many game keys each lists, in name order.
pub fn category_counts(categories: &Vec<(String, Json)>) -> (r: Vec<(String, usize)>)
    requires
        keys_unique(categories@),
    ensures
        keys_sorted(r@),
        forall|n: Seq<char>| #[trigger] lookup(r@, n) == match lookup(categories@, n) {
            Some(v) => Some(listed_count(v)),
            None => None,
        },
{
    let mut out: Vec<(String, usize)> = Vec::new();
    let n = categories.len();
    let mut i: usize = 0;
    while i < n
        invariant
            n == categories@.len(),
            i <= n,
            keys_unique(categories@),
            keys_sorted(out@),
            forall|x: Seq<char>| #[trigger] lookup(out@, x) == match lookup(categories@.take(i as int), x) {
                Some(v) => Some(listed_count(v)),
                None => None,
            },
        decreases n - i,
    {
        let count = match &categories[i].1 {
            Json::Array(a) => a.len(),
            _ => 0,
        };
        let ghost t = categories@.take(i as int);
        proof {
            assert(keys_unique(t)) by {
                assert forall|a: int, b: int| 0 <= a < t.len() && 0 <= b < t.len() && a != b implies #[trigger] t[a].0@
                    != #[trigger] t[b].0@ by {
                    assert(t[a] == categories@[a] && t[b] == categories@[b]);
                }
            }
            assert(!has_key(t, categories@[i as int].0@)) by {
                if has_key(t, categories@[i as int].0@) {
                    let j = choose|j: int| 0 <= j < t.len() && #[trigger] t[j].0@ == categories@[i as int].0@;
                    assert(t[j] == categories@[j]);
                }
            }
            crate::strmap::lemma_lookup_push(t, categories@[i as int]);
            assert(categories@.take(i + 1) =~= t.push(categories@[i as int]));
            assert(lookup(out@, categories@[i as int].0@) is None);
        }
        let ghost before = out@;
        insert_new_sorted(&mut out, categories[i].0.clone(), count);
        proof {
            assert forall|x: Seq<char>| #[trigger] lookup(out@, x) == if x == categories@[i as int].0@ {
                Some(count)
            } else {
                lookup(before, x)
            } by {
                assert(assoc_map(out@).dom().contains(x) == has_key(out@, x));
                assert(assoc_map(before).dom().contains(x) == has_key(before, x));
            }
        }
        i = i + 1;
    }
    assert(categories@.take(n as int) =~= categories@);
    out
}

/// Adding a value twice to a list leaves it as adding it once does, and the
/// list then holds the value.
pub proof fn law_push_unique_idempotent(s: Seq<Seq<char>>, x: Seq<char>)
    ensures
        with_unique(with_unique(s, x), x) == with_unique(s, x),
        with_unique(s, x).contains(x),
{
    if !s.contains(x) {
        assert(s.push(x)[s.len() as int] == x);
    }
}

/// No game key is listed twice under a category.
pub proof fn law_rebuilt_lists_distinct(
    games: Seq<(String, GameEntry)>,
    cats: Map<Seq<char>, CategoryView>,
    n: Seq<char>,
)
    requires
        keys_sorted(games),
    ensures
        distinct(keys_under(games, cats, n)),
    decreases games.len(),
{
    if games.len() > 0 {
        let d = games.drop_last();
        assert(keys_sorted(d)) by {
            assert forall|a: int, b: int| 0 <= a < b < d.len() implies crate::strmap::key_lt(
                #[trigger] d[a].0@,
                #[trigger] d[b].0@,
            ) by {
                assert(d[a] == games[a] && d[b] == games[b]);
            }
        }
        law_rebuilt_lists_distinct(d, cats, n);
        let rest = keys_under(d, cats, n);
        let last = games.last().0@;
        if !rest.contains(last) {
            lemma_with_unique_distinct(rest, last);
        } else {
            lemma_keys_under_from(d, cats, n, last);
            let k = choose|k: int| 0 <= k < d.len() && #[trigger] d[k].0@ == last;
            assert(d[k] == games[k]);
            lemma_sorted_distinct(games, k, games.len() - 1);
        }
    }
}

/// Every stored game is listed under the shown name of each of its
/// categories.
pub proof fn law_rebuilt_lists_every_filing(
    games: Seq<(String, GameEntry)>,
    cats: Map<Seq<char>, CategoryView>,
    i: int,
    j: int,
)
    requires
        0 <= i < games.len(),
        0 <= j < games[i].1.categories@.len(),
    ensures
        rebuilt(games, cats).contains_key(display_name_spec(cats, games[i].1.categories@[j]@)),
        rebuilt(games, cats)[display_name_spec(cats, games[i].1.categories@[j]@)].contains(games[i].0@),
    decreases games.len(),
{
    let n = display_name_spec(cats, games[i].1.categories@[j]@);
    let rest = keys_under(games.drop_last(), cats, n);
    if i == games.len() - 1 {
        assert(files_under(cats, games.last().1, n));
        assert(rest.push(games.last().0@)[rest.len() as int] == games[i].0@);
    } else {
        assert(games.drop_last()[i] == games[i]);
        law_rebuilt_lists_every_filing(games.drop_last(), cats, i, j);
        let k = choose|k: int| 0 <= k < rest.len() && rest[k] == games[i].0@;
        if files_under(cats, games.last().1, n) {
            assert(rest.push(games.last().0@)[k] == games[i].0@);
        }
    }
}

/// Every key listed under a category is a stored game filed under it.
pub proof fn law_rebuilt_lists_only_filings(
    games: Seq<(String, GameEntry)>,
    cats: Map<Seq<char>, CategoryView>,
    n: Seq<char>,
    x: Seq<char>,
)
    requires
        keys_under(games, cats, n).contains(x),
    ensures
        exists|i: int| 0 <= i < games.len() && #[trigger] games[i].0@ == x && files_under(cats, games[i].1, n),
    decreases games.len(),
{
    let d = games.drop_last();
    let rest = keys_under(d, cats, n);
    if rest.contains(x) {
        law_rebuilt_lists_only_filings(d, cats, n, x);
        let i = choose|i: int| 0 <= i < d.len() && #[trigger] d[i].0@ == x && files_under(cats, d[i].1, n);
        assert(games[i] == d[i]);
    } else {
        let i = games.len() - 1;
        assert(games[i].0@ == x);
    }
}

/// After naming, each pending category that IGDB named is shown under IGDB's
/// name.
pub proof fn law_healed_names(
    cats: Map<Seq<char>, CategoryView>,
    pending: Seq<Seq<char>>,
    names: Seq<(String, String)>,
    p: Seq<char>,
)
    requires
        pending.contains(p),
        lookup(names, p) is Some,
    ensures
        display_name_spec(renamed(cats, pending, names), p) == lookup(names, p).unwrap()@,
    decreases pending.len(),
{
    let d = pending.drop_last();
    if pending.last() != p {
        let k = choose|k: int| 0 <= k < pending.len() && pending[k] == p;
        assert(d[k] == p);
        law_healed_names(cats, d, names, p);
    }
}

/// The categories of a game IGDB answered for have no repeats.
pub proof fn law_found_slugs_distinct(found: IgdbGame)
    ensures
        distinct(found_slugs(found)),
{
    lemma_dedup_distinct(slugs_of(found.genres@) + slugs_of(found.themes@));
}

/// Once the rebuilt categories are written into a configuration document,
/// reading its categories shows every stored game under the shown name of
/// each category it is filed under.
pub proof fn law_written_categories_list_every_filing(
    games: Seq<(String, GameEntry)>,
    cats: Map<Seq<char>, CategoryView>,
    r: Vec<(String, Json)>,
    d: Json,
    i: int,
    j: int,
)
    requires
        forall|n: Seq<char>| #[trigger] has_key(r@, n) == rebuilt(games, cats).contains_key(n),
        forall|t: int| 0 <= t < r@.len() ==> json_view(#[trigger] r@[t].1) == str_list_view(
            rebuilt(games, cats)[r@[t].0@],
        ),
        custom_categories_of(d) == Some(Json::Object(r)),
        0 <= i < games.len(),
        0 <= j < games[i].1.categories@.len(),
    ensures
        exists|t: int|
            0 <= t < categories_view(d).len() && (#[trigger] categories_view(d)[t]).0 == display_name_spec(
                cats,
                games[i].1.categories@[j]@,
            ) && (categories_view(d)[t].1 matches JsonView::Array(a) && a.contains(
                JsonView::Str(games[i].0@),
            )),
{
    let name = display_name_spec(cats, games[i].1.categories@[j]@);
    law_rebuilt_lists_every_filing(games, cats, i, j);
    assert(has_key(r@, name));
    let t = choose|t: int| 0 <= t < r@.len() && #[trigger] r@[t].0@ == name;
    lemma_pairs_view_index(r@);
    let keys = rebuilt(games, cats)[name];
    let k = choose|k: int| 0 <= k < keys.len() && keys[k] == games[i].0@;
    let a = keys.map_values(|x: Seq<char>| JsonView::Str(x));
    assert(a[k] == JsonView::Str(games[i].0@));
    assert(categories_view(d)[t] == (r@[t].0@, json_view(r@[t].1)));
}

/// The title search of `list` is a substring search: a game that passes the
/// runner and installed filters is listed whenever the lower-cased query
/// occurs anywhere in its lower-cased title, at its start, after a space or
/// inside a word; and it is listed without a query.
pub proof fn law_listed_when_filters_pass(
    g: LibraryGameView,
    runner: Option<Seq<char>>,
    installed: bool,
    before: Seq<char>,
    q: Seq<char>,
    after: Seq<char>,
)
    requires
        runner matches Some(r) ==> g.runner == r,
        installed ==> g.is_installed,
    ensures
        listed(g, runner, installed, Some(q), before + q + after),
        listed(g, runner, installed, None, before + q + after),
{
    law_infix_anywhere(before, q, after);
}

/// A listed game passes every filter given: it has the runner asked for, it
/// is installed where only installed games are asked for, and its lower-cased
/// title holds the lower-cased query as a run of characters.
pub proof fn law_listed_only_when_filters_pass(
    g: LibraryGameView,
    runner: Option<Seq<char>>,
    installed: bool,
    query: Option<Seq<char>>,
    title: Seq<char>,
)
    requires
        listed(g, runner, installed, query, title),
    ensures
        runner matches Some(r) ==> g.runner == r,
        installed ==> g.is_installed,
        query matches Some(q) ==> exists|before: Seq<char>, after: Seq<char>| title == before + q + after,
{
    if let Some(q) = query {
        law_infix_only_where_found(q, title);
    }
}

/// What `dedup` keeps is what the list holds.
proof fn lemma_dedup_contains(s: Seq<Seq<char>>, x: Seq<char>)
    ensures
        dedup(s).contains(x) <==> s.contains(x),
    decreases s.len(),
{
    if s.len() > 0 {
        let p = s.drop_last();
        let y = s.last();
        lemma_dedup_contains(p, x);
        assert(s =~= p.push(y));
        if s.contains(x) && !p.contains(x) {
            let k = choose|k: int| 0 <= k < s.len() && s[k] == x;
            if k < p.len() {
                assert(p[k] == x);
            }
            assert(x == y);
            if !dedup(p).contains(y) {
                assert(dedup(s)[dedup(p).len() as int] == y);
            }
        }
        if p.contains(x) {
            let k = choose|k: int| 0 <= k < dedup(p).len() && dedup(p)[k] == x;
            if !dedup(p).contains(y) {
                assert(dedup(s)[k] == x);
            }
        }
        if dedup(s).contains(x) && !dedup(p).contains(x) {
            let k = choose|k: int| 0 <= k < dedup(s).len() && dedup(s)[k] == x;
            if !dedup(p).contains(y) {
                if k < dedup(p).len() {
                    assert(dedup(p)[k] == x);
                }
                assert(x == y);
                assert(s[s.len() - 1] == y);
            }
        }
    }
}

/// `dedup` keeps the order in which elements are first met: of two kept
/// elements, the earlier one occurs in the list before every occurrence of
/// the later one.
proof fn lemma_dedup_first_seen_order(s: Seq<Seq<char>>, k: int, l: int)
    requires
        0 <= k < l < dedup(s).len(),
    ensures
        exists|p: int| 0 <= p < s.len() && s[p] == dedup(s)[k] && forall|q: int|
            0 <= q < s.len() && s[q] == dedup(s)[l] ==> p < q,
    decreases s.len(),
{
    let p = s.drop_last();
    let y = s.last();
    assert(s.len() > 0);
    if dedup(p).contains(y) {
        lemma_dedup_first_seen_order(p, k, l);
        let w = choose|w: int| 0 <= w < p.len() && p[w] == dedup(p)[k] && forall|q: int|
            0 <= q < p.len() && p[q] == dedup(p)[l] ==> w < q;
        assert(s[w] == dedup(s)[k]);
        assert forall|q: int| 0 <= q < s.len() && s[q] == dedup(s)[l] implies w < q by {
            if q < p.len() {
                assert(p[q] == s[q]);
            } else {
                lemma_dedup_contains(p, y);
                lemma_dedup_distinct(p);
                assert(s[q] == y);
                let m = choose|m: int| 0 <= m < dedup(p).len() && dedup(p)[m] == y;
                if m != l {
                    assert(dedup(p)[m] == dedup(p)[l]);
                }
            }
        }
    } else if l < dedup(p).len() {
        lemma_dedup_first_seen_order(p, k, l);
        let w = choose|w: int| 0 <= w < p.len() && p[w] == dedup(p)[k] && forall|q: int|
            0 <= q < p.len() && p[q] == dedup(p)[l] ==> w < q;
        assert(s[w] == dedup(s)[k]);
        assert forall|q: int| 0 <= q < s.len() && s[q] == dedup(s)[l] implies w < q by {
            if q < p.len() {
                assert(p[q] == s[q]);
            } else {
                assert(dedup(p).contains(dedup(p)[l]));
                assert(s[q] == y);
            }
        }
    } else {
        assert(dedup(s)[l] == y);
        let x = dedup(s)[k];
        assert(dedup(p)[k] == x);
        assert(dedup(p).contains(x));
        lemma_dedup_contains(p, x);
        lemma_dedup_contains(p, y);
        let w = choose|w: int| 0 <= w < p.len() && p[w] == x;
        assert(s[w] == x);
        assert forall|q: int| 0 <= q < s.len() && s[q] == dedup(s)[l] implies w < q by {
            if q < p.len() {
                assert(p[q] == y);
                assert(p.contains(y));
            }
        }
    }
}

/// Every genre and every theme IGDB gave for a game is among the categories
/// the game is filed under.
pub proof fn law_found_slugs_cover(found: IgdbGame, c: IgdbIdName)
    requires
        found.genres@.contains(c) || found.themes@.contains(c),
    ensures
        found_slugs(found).contains(slug_of(c.name@)),
{
    let g = slugs_of(found.genres@);
    let t = slugs_of(found.themes@);
    if found.genres@.contains(c) {
        let k = choose|k: int| 0 <= k < found.genres@.len() && found.genres@[k] == c;
        assert((g + t)[k] == slug_of(c.name@));
    } else {
        let k = choose|k: int| 0 <= k < found.themes@.len() && found.themes@[k] == c;
        assert((g + t)[g.len() + k] == slug_of(c.name@));
    }
    lemma_dedup_contains(g + t, slug_of(c.name@));
}

/// A game is filed only under the slugs of the genres and themes IGDB gave.
pub proof fn law_found_slugs_only(found: IgdbGame, x: Seq<char>)
    requires
        found_slugs(found).contains(x),
    ensures
        exists|c: IgdbIdName| (found.genres@.contains(c) || found.themes@.contains(c)) && slug_of(c.name@) == x,
{
    let g = slugs_of(found.genres@);
    let t = slugs_of(found.themes@);
    lemma_dedup_contains(g + t, x);
    let k = choose|k: int| 0 <= k < (g + t).len() && (g + t)[k] == x;
    if k < g.len() {
        let c = found.genres@[k];
        assert(found.genres@.contains(c));
    } else {
        let c = found.themes@[k - g.len()];
        assert(found.themes@.contains(c));
    }
}

/// A game's categories come in the order they are first met among its genres
/// followed by its themes: of two of them, the earlier is met before the
/// later one is met at all.
pub proof fn law_found_slugs_order(found: IgdbGame, k: int, l: int)
    requires
        0 <= k < l < found_slugs(found).len(),
    ensures
        exists|p: int| 0 <= p < (slugs_of(found.genres@) + slugs_of(found.themes@)).len()
            && (slugs_of(found.genres@) + slugs_of(found.themes@))[p] == found_slugs(found)[k]
            && forall|q: int| 0 <= q < (slugs_of(found.genres@) + slugs_of(found.themes@)).len()
                && (slugs_of(found.genres@) + slugs_of(found.themes@))[q] == found_slugs(found)[l] ==> p < q,
{
    lemma_dedup_first_seen_order(slugs_of(found.genres@) + slugs_of(found.themes@), k, l);
}

/// `categories` reports, for each category whose value is an array of game
/// keys, the length of that array, and 0 for any other value.
pub proof fn law_category_count_is_list_length(
    categories: Seq<(String, Json)>,
    r: Seq<(String, usize)>,
    n: Seq<char>,
)
    requires
        forall|m: Seq<char>| #[trigger] lookup(r, m) == match lookup(categories, m) {
            Some(v) => Some(listed_count(v)),
            None => None,
        },
    ensures
        lookup(categories, n) matches Some(Json::Array(a)) ==> (lookup(r, n) matches Some(k) && k == a.len()),
        lookup(categories, n) matches Some(v) && !(v is Array) ==> lookup(r, n) == Some(0usize),
        lookup(categories, n) is None ==> lookup(r, n) is None,
{
    broadcast use vstd::std_specs::vec::axiom_spec_len;

    assert(lookup(r, n) == match lookup(categories, n) {
        Some(v) => Some(listed_count(v)),
        None => None,
    });
    if let Some(Json::Array(a)) = lookup(categories, n) {
        assert(a.len() == a@.len());
    }
}

} // verus!
