use herocat::catalog::{display_name, CatalogData, CategoryRegistry};
use herocat::commands::{
    apply_canonical_names, category_counts, file_game_under, game_key, games_to_process,
    heal_candidates, list_games, push_unique, rebuild_categories, record_match, resolve_game,
    select_games,
};
use herocat::games_store::{GamesData, GamesStore};
use herocat::heroic_config::HeroicConfig;
use herocat::json::{as_u64, Json, JsonNumber};
use herocat::models::{IgdbGame, IgdbIdName, LibraryGame};

fn game(app: &str, title: &str, runner: &str, installed: bool) -> LibraryGame {
    LibraryGame {
        app_name: app.to_string(),
        title: title.to_string(),
        runner: runner.to_string(),
        is_installed: installed,
    }
}

fn library() -> Vec<LibraryGame> {
    vec![
        game("a1", "The Witcher 3", "gog", true),
        game("b2", "LEGO Batman", "legendary", false),
        game("c3", "Prey", "gog", false),
        game("d4", "Lego Star Wars", "gog", true),
    ]
}

fn registry() -> CategoryRegistry {
    CategoryRegistry::from_loaded(b"c.json".to_vec(), CatalogData { version: 1, categories: Vec::new() })
}

fn store() -> GamesStore {
    GamesStore::empty(b"g.json".to_vec())
}

fn titles(v: &[LibraryGame]) -> Vec<&str> {
    v.iter().map(|g| g.title.as_str()).collect()
}

fn str_array(v: &Json) -> Vec<String> {
    match v {
        Json::Array(a) => a
            .iter()
            .map(|x| match x {
                Json::Str(s) => s.clone(),
                _ => panic!("not a string"),
            })
            .collect(),
        _ => panic!("not an array"),
    }
}

#[test]
fn push_unique_adds_once() {
    let mut v = vec!["a".to_string()];
    push_unique(&mut v, "b".to_string());
    push_unique(&mut v, "a".to_string());
    push_unique(&mut v, "b".to_string());
    assert_eq!(v, vec!["a", "b"]);
}

#[test]
fn list_filters_by_runner_installed_and_search() {
    let games = library();
    assert_eq!(list_games(&games, None, false, None).len(), 4);
    assert_eq!(titles(&list_games(&games, Some("gog".to_string()), false, None)), vec!["The Witcher 3", "Prey", "Lego Star Wars"]);
    assert_eq!(titles(&list_games(&games, None, true, None)), vec!["The Witcher 3", "Lego Star Wars"]);
    assert_eq!(titles(&list_games(&games, None, false, Some("lego".to_string()))), vec!["LEGO Batman", "Lego Star Wars"]);
    assert_eq!(titles(&list_games(&games, Some("gog".to_string()), false, Some("LEGO".to_string()))), vec!["Lego Star Wars"]);
    assert_eq!(titles(&list_games(&games, None, false, Some("WITCHER".to_string()))), vec!["The Witcher 3"]);
    assert!(list_games(&games, Some("nile".to_string()), false, None).is_empty());
}

#[test]
fn game_key_joins_app_name_and_runner() {
    assert_eq!(game_key(&game("1133514031", "Prey", "gog", false)), "1133514031_gog");
}

#[test]
fn resolve_prefers_key_then_title() {
    let mut games = library();
    games.push(game("x", "c3_gog", "nile", false));
    assert_eq!(resolve_game(&games, "c3_gog"), Some(2));
    assert_eq!(resolve_game(&games, "prey"), Some(2));
    assert_eq!(resolve_game(&games, "LEGO BATMAN"), Some(1));
    assert_eq!(resolve_game(&games, "Half-Life"), None);
}

#[test]
fn select_by_filter_or_all() {
    let games = library();
    assert_eq!(select_games(&games, None).len(), 4);
    assert_eq!(titles(&select_games(&games, Some("prey"))), vec!["Prey"]);
    assert_eq!(titles(&select_games(&games, Some("a1_gog"))), vec!["The Witcher 3"]);
    assert!(select_games(&games, Some("nothing")).is_empty());
}

#[test]
fn count_of_games_to_process() {
    assert_eq!(games_to_process(10, 0, false), 10);
    assert_eq!(games_to_process(10, 5, false), 5);
    assert_eq!(games_to_process(10, 50, false), 10);
    assert_eq!(games_to_process(2, 1, true), 2);
}

#[test]
fn store_round_trip_in_memory() {
    let mut s = store();
    let entry = s.game("1133514031_gog");
    entry.title = "Prey".to_string();
    entry.sources.push(("igdb".to_string(), Json::Number(JsonNumber::PosInt(15589))));
    entry.categories = vec!["shooter".to_string(), "scifi".to_string()];
    let g = &s.data.games.iter().find(|(k, _)| k == "1133514031_gog").unwrap().1;
    assert_eq!(g.title, "Prey");
    assert_eq!(as_u64(&g.sources[0].1), Some(15589));
    assert_eq!(g.categories, vec!["shooter", "scifi"]);
    assert_eq!(s.mapped_igdb_id("1133514031_gog"), Some(15589));
    assert_eq!(s.mapped_igdb_id("other"), None);
}

#[test]
fn file_game_keeps_title_and_adds_slug_once() {
    let mut s = store();
    file_game_under(&mut s, "c3_gog", "Prey", "shooter".to_string());
    file_game_under(&mut s, "c3_gog", "Other", "shooter".to_string());
    file_game_under(&mut s, "c3_gog", "Other", "scifi".to_string());
    let g = &s.data.games[0].1;
    assert_eq!(g.title, "Prey");
    assert_eq!(g.categories, vec!["shooter", "scifi"]);
}

fn prey() -> IgdbGame {
    IgdbGame {
        id: 15589,
        name: "Prey".to_string(),
        genres: vec![
            IgdbIdName { id: 5, name: "Shooter".to_string() },
            IgdbIdName { id: 31, name: "Adventure".to_string() },
        ],
        themes: vec![
            IgdbIdName { id: 18, name: "Science fiction".to_string() },
            IgdbIdName { id: 5, name: "Shooter".to_string() },
        ],
    }
}

#[test]
fn record_match_registers_and_stores() {
    let mut cat = registry();
    let mut s = store();
    let classified = record_match(&mut cat, &mut s, "c3_gog", "Prey", &prey());
    assert!(classified);
    let g = &s.data.games[0].1;
    assert_eq!(g.title, "Prey");
    assert_eq!(g.categories, vec!["shooter", "adventure", "science-fiction"]);
    assert_eq!(s.mapped_igdb_id("c3_gog"), Some(15589));
    assert_eq!(display_name(&cat, "science-fiction"), "Science fiction");
    let shooter = &cat.data.categories.iter().find(|(k, _)| k == "shooter").unwrap().1;
    let igdb = &shooter.sources[0].1;
    assert_eq!(igdb[0].0, "genres");
    assert_eq!(igdb[0].1, vec!["5"]);
    assert_eq!(igdb[1].0, "themes");
    assert_eq!(igdb[1].1, vec!["5"]);
}

#[test]
fn record_match_without_categories_is_a_miss() {
    let mut cat = registry();
    let mut s = store();
    let found = IgdbGame { id: 7, name: "X".to_string(), genres: Vec::new(), themes: Vec::new() };
    assert!(!record_match(&mut cat, &mut s, "k_gog", "X", &found));
    assert!(s.data.games[0].1.categories.is_empty());
    assert_eq!(s.mapped_igdb_id("k_gog"), Some(7));
}

#[test]
fn rebuild_lists_games_by_category_name() {
    let mut cat = registry();
    cat.ensure_named("rpg", "RPG");
    let mut s = store();
    file_game_under(&mut s, "b_gog", "B", "rpg".to_string());
    file_game_under(&mut s, "a_gog", "A", "rpg".to_string());
    file_game_under(&mut s, "a_gog", "A", "indie".to_string());
    let cats = rebuild_categories(&s, &cat);
    let names: Vec<&str> = cats.iter().map(|(k, _)| k.as_str()).collect();
    assert_eq!(names, vec!["RPG", "indie"]);
    assert_eq!(str_array(&cats[0].1), vec!["a_gog", "b_gog"]);
    assert_eq!(str_array(&cats[1].1), vec!["a_gog"]);
}

#[test]
fn rebuild_lists_each_game_once_per_name() {
    let mut cat = registry();
    cat.ensure_named("rpg", "Role");
    cat.ensure_named("role-playing", "Role");
    let mut s = store();
    file_game_under(&mut s, "a_gog", "A", "rpg".to_string());
    file_game_under(&mut s, "a_gog", "A", "role-playing".to_string());
    let cats = rebuild_categories(&s, &cat);
    assert_eq!(cats.len(), 1);
    assert_eq!(str_array(&cats[0].1), vec!["a_gog"]);
}

#[test]
fn heal_picks_unnamed_igdb_categories_and_names_them() {
    let mut cat = registry();
    cat.register("shooter", "shooter", "igdb", "genres", "5");
    cat.register("rpg", "", "igdb", "genres", "12");
    cat.register("indie", "Indie", "igdb", "genres", "32");
    cat.ensure_named("mine", "mine");
    let pending = heal_candidates(&cat);
    assert_eq!(pending, vec!["rpg", "shooter"]);
    let names = vec![("shooter".to_string(), "Shooter".to_string())];
    let fixed = apply_canonical_names(&mut cat, &pending, &names);
    assert_eq!(fixed, 1);
    assert_eq!(display_name(&cat, "shooter"), "Shooter");
    assert_eq!(display_name(&cat, "rpg"), "");
}

#[test]
fn counts_are_sorted_by_name() {
    let cats = vec![
        ("b".to_string(), Json::Array(vec![Json::Str("x".to_string()), Json::Str("y".to_string())])),
        ("a".to_string(), Json::Array(vec![Json::Str("x".to_string())])),
        ("c".to_string(), Json::Null),
    ];
    let counts = category_counts(&cats);
    assert_eq!(counts, vec![("a".to_string(), 1), ("b".to_string(), 2), ("c".to_string(), 0)]);
}

#[test]
fn data_is_well_formed_when_sorted() {
    let d = GamesData { version: 1, games: Vec::new() };
    assert!(d.is_well_formed());
}

#[test]
fn assigned_game_shows_in_config_categories() {
    let mut cat = registry();
    let slug = herocat::catalog::slugify("Role Playing");
    cat.ensure_named(&slug, "Role Playing");
    let mut s = store();
    file_game_under(&mut s, "c3_gog", "Prey", slug);
    let mut config = HeroicConfig::from_loaded(b"config.json".to_vec(), Json::Null);
    config.set_categories(rebuild_categories(&s, &cat));
    let cats = config.categories();
    assert_eq!(cats.len(), 1);
    assert_eq!(cats[0].0, "Role Playing");
    assert_eq!(str_array(&cats[0].1), vec!["c3_gog"]);
}
