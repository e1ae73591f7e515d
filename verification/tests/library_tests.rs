use herocat::heroic::{
    heroic_root_candidates, library_files, pick_heroic_root, read_all_libraries, store_cache_dir,
    HeroicLibrary, LibraryError,
};
use herocat::commands::{game_outcome, generate_stops, GameOutcome, GenerateTally};
use herocat::heroic::home_candidates;
use herocat::igdb::{
    first_lookup, next_lookup, Lookup, LookupAnswer, api_status, is_success, rate_limit_wait_ns, search_body, token_is_valid, token_lifetime_secs,
    ApiStatus,
};
use herocat::models::GameInfo;
use herocat::paths::join_path;
use herocat::text::{contains_text, eq_ignore_ascii_case, u64_to_decimal};

fn info(app: &str, title: &str, installed: bool) -> GameInfo {
    GameInfo { app_name: app.to_string(), title: title.to_string(), is_installed: installed }
}

#[test]
fn to_library_game_copies_and_labels() {
    let g = info("Fortnite", "Fortnite", true).to_library_game("legendary");
    assert_eq!(g.app_name, "Fortnite");
    assert_eq!(g.title, "Fortnite");
    assert_eq!(g.runner, "legendary");
    assert!(g.is_installed);
}

#[test]
fn libraries_are_merged_in_runner_order() {
    let games = read_all_libraries(
        Some(vec![info("e1", "Epic One", false)]),
        None,
        Some(vec![info("n1", "Amazon One", true), info("n2", "Amazon Two", false)]),
        Some(vec![info("s1", "Side", false)]),
    );
    let got: Vec<(&str, &str)> = games.iter().map(|g| (g.app_name.as_str(), g.runner.as_str())).collect();
    assert_eq!(got, vec![("e1", "legendary"), ("n1", "nile"), ("n2", "nile"), ("s1", "sideload")]);
}

#[test]
fn discover_needs_a_root() {
    assert!(matches!(HeroicLibrary::discover(None, None, None, None, None), Err(LibraryError::NotFound)));
    let lib = HeroicLibrary::discover(Some(b"/r".to_vec()), None, Some(vec![info("g", "G", false)]), None, None).unwrap();
    assert_eq!(lib.root, b"/r".to_vec());
    assert_eq!(lib.games.len(), 1);
    assert_eq!(lib.games[0].runner, "gog");
}

#[test]
fn root_candidates_and_choice() {
    let (f, n) = heroic_root_candidates(b"/home/a");
    assert_eq!(f, b"/home/a/.var/app/com.heroicgameslauncher.hgl/config/heroic".to_vec());
    assert_eq!(n, b"/home/a/.config/heroic".to_vec());
    assert_eq!(store_cache_dir(b"/r"), b"/r/store_cache".to_vec());
    assert_eq!(pick_heroic_root(f.clone(), true, n.clone(), true), Some(f.clone()));
    assert_eq!(pick_heroic_root(f.clone(), false, n.clone(), true), Some(n.clone()));
    assert_eq!(pick_heroic_root(f, false, n, false), None);
    let (e, g, a, s) = library_files(b"/r");
    assert_eq!(e, b"/r/store_cache/legendary_library.json".to_vec());
    assert_eq!(g, b"/r/store_cache/gog_library.json".to_vec());
    assert_eq!(a, b"/r/store_cache/nile_library.json".to_vec());
    assert_eq!(s, b"/r/sideload_apps/library.json".to_vec());
    let (f, _) = heroic_root_candidates(b"/home/\xfe");
    assert_eq!(f, b"/home/\xfe/.var/app/com.heroicgameslauncher.hgl/config/heroic".to_vec());
}

#[test]
fn search_body_strips_quotes() {
    assert_eq!(search_body("Prey"), "search \"Prey\"; fields name,genres.*,themes.*; limit 1;");
    assert_eq!(search_body("The \"Best\" Game"), "search \"The Best Game\"; fields name,genres.*,themes.*; limit 1;");
}

#[test]
fn statuses() {
    assert_eq!(api_status(200), ApiStatus::Success);
    assert_eq!(api_status(204), ApiStatus::Success);
    assert_eq!(api_status(429), ApiStatus::RateLimited);
    assert_eq!(api_status(401), ApiStatus::Failed);
    assert_eq!(api_status(500), ApiStatus::Failed);
    assert!(is_success(299));
    assert!(!is_success(300));
}

#[test]
fn token_decisions() {
    assert!(!token_is_valid(None, 100));
    assert!(token_is_valid(Some(5), 100));
    assert!(!token_is_valid(Some(100), 100));
    assert_eq!(token_lifetime_secs(5000), 4940);
    assert_eq!(token_lifetime_secs(60), 0);
}

#[test]
fn rate_limit_waits_up_to_300ms() {
    assert_eq!(rate_limit_wait_ns(0), 300_000_000);
    assert_eq!(rate_limit_wait_ns(100_000_000), 200_000_000);
    assert_eq!(rate_limit_wait_ns(300_000_000), 0);
    assert_eq!(rate_limit_wait_ns(1_000_000_000), 0);
}

#[test]
fn text_helpers() {
    assert_eq!(u64_to_decimal(0), "0");
    assert_eq!(u64_to_decimal(15589), "15589");
    assert_eq!(u64_to_decimal(u64::MAX), u64::MAX.to_string());
    assert_eq!(join_path(b"a", b"b"), b"a/b".to_vec());
    assert_eq!(join_path(b"a/", b"b"), b"a/b".to_vec());
    assert_eq!(join_path(b"", b"b"), b"b".to_vec());
    assert_eq!(join_path(b"a", b"/b"), b"/b".to_vec());
    assert!(eq_ignore_ascii_case("Prey", "pREY"));
    assert!(!eq_ignore_ascii_case("Prey", "Preys"));
    assert!(!eq_ignore_ascii_case("É", "é"));
    assert!(contains_text("the witcher 3", "witcher"));
    assert!(contains_text("abc", ""));
    assert!(!contains_text("abc", "abcd"));
    assert!(!contains_text("abc", "bd"));
}

#[test]
fn lookups_go_by_id_then_title() {
    assert_eq!(first_lookup(Some(15589)), Lookup::ById(15589));
    assert_eq!(first_lookup(None), Lookup::ByTitle);
    assert_eq!(next_lookup(Lookup::ById(1), LookupAnswer::NotFound), Some(Lookup::ByTitle));
    assert_eq!(next_lookup(Lookup::ById(1), LookupAnswer::Found), None);
    assert_eq!(next_lookup(Lookup::ById(1), LookupAnswer::Failed), None);
    assert_eq!(next_lookup(Lookup::ByTitle, LookupAnswer::NotFound), None);
}

#[test]
fn home_candidates_end_in_heroic_places() {
    if let Some((f, n)) = home_candidates() {
        assert!(f.ends_with(b"/.var/app/com.heroicgameslauncher.hgl/config/heroic"));
        assert!(n.ends_with(b"/.config/heroic"));
    }
}

#[test]
fn outcomes_of_generate() {
    assert_eq!(game_outcome(LookupAnswer::Found, true), GameOutcome::Classified);
    assert_eq!(game_outcome(LookupAnswer::Found, false), GameOutcome::Miss);
    assert_eq!(game_outcome(LookupAnswer::NotFound, true), GameOutcome::Miss);
    assert_eq!(game_outcome(LookupAnswer::Failed, true), GameOutcome::Failed);
}

#[test]
fn generate_stops_only_on_an_unmatched_game() {
    assert!(generate_stops(true, 0));
    assert!(!generate_stops(true, 2));
    assert!(!generate_stops(false, 0));
    assert!(!generate_stops(false, 5));
}

#[test]
fn generate_tally_counts_each_game() {
    let mut t = GenerateTally::new();
    assert_eq!((t.classified, t.by_id, t.misses.len()), (0, 0, 0));
    t.count_lookup(Lookup::ById(7));
    t.count_outcome(0, GameOutcome::Classified);
    t.count_lookup(Lookup::ByTitle);
    t.count_outcome(1, GameOutcome::Miss);
    t.count_lookup(Lookup::ById(9));
    t.count_outcome(2, GameOutcome::Failed);
    t.count_lookup(Lookup::ByTitle);
    t.count_outcome(3, GameOutcome::Miss);
    assert_eq!(t.classified, 1);
    assert_eq!(t.by_id, 2);
    assert_eq!(t.misses, vec![1, 3]);
}
