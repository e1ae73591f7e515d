use herocat::catalog::{
    display_name, slugify, user_categories_path, user_games_path, user_config_dir_in, CatalogData,
    CategoryEntry, CategoryRegistry,
};

fn empty_registry() -> CategoryRegistry {
    CategoryRegistry::from_loaded(
        b"categories.json".to_vec(),
        CatalogData { version: 0, categories: Vec::new() },
    )
}

fn ids(reg: &CategoryRegistry, slug: &str, source: &str, dim: &str) -> Vec<String> {
    let e = &reg.data.categories.iter().find(|(k, _)| k == slug).unwrap().1;
    let d = &e.sources.iter().find(|(k, _)| k == source).unwrap().1;
    d.iter().find(|(k, _)| k == dim).unwrap().1.clone()
}

#[test]
fn slugify_examples() {
    assert_eq!(slugify("Role-playing (RPG)"), "role-playing-rpg");
    assert_eq!(slugify("Science fiction"), "science-fiction");
    assert_eq!(slugify("  --Hack & Slash/Beat 'em up--"), "hack-slash-beat-em-up");
    assert_eq!(slugify(""), "");
    assert_eq!(slugify("---"), "");
    assert_eq!(slugify("Ünïcode Ñ"), "n-code");
    assert_eq!(slugify("RPG"), "rpg");
    assert_eq!(slugify("4X"), "4x");
}

#[test]
fn slugify_is_idempotent_on_examples() {
    for s in ["Role-playing (RPG)", "Point-and-click", "Turn-based strategy (TBS)", "a  b"] {
        let once = slugify(s);
        assert_eq!(slugify(&once), once);
    }
}

#[test]
fn new_entry_has_name_and_no_sources() {
    let e = CategoryEntry::new("Shooter");
    assert_eq!(e.name, "Shooter");
    assert!(e.sources.is_empty());
}

#[test]
fn from_loaded_fixes_version_zero() {
    let reg = empty_registry();
    assert_eq!(reg.data.version, 1);
    let reg = CategoryRegistry::from_loaded(
        b"x".to_vec(),
        CatalogData { version: 3, categories: Vec::new() },
    );
    assert_eq!(reg.data.version, 3);
}

#[test]
fn entry_adds_missing_category_named_by_slug() {
    let mut reg = empty_registry();
    let e = reg.entry("rpg");
    assert_eq!(e.name, "rpg");
    e.name = "RPG".to_string();
    assert_eq!(reg.entry("rpg").name, "RPG");
    assert_eq!(reg.data.categories.len(), 1);
}

#[test]
fn ensure_named_sets_the_name() {
    let mut reg = empty_registry();
    reg.ensure_named("rpg", "Role-playing");
    reg.ensure_named("rpg", "RPG");
    assert_eq!(reg.data.categories.len(), 1);
    assert_eq!(display_name(&reg, "rpg"), "RPG");
}

#[test]
fn register_records_id_once() {
    let mut reg = empty_registry();
    let s = reg.register("shooter", "Shooter", "igdb", "genres", "5");
    assert_eq!(s, "shooter");
    reg.register("shooter", "Shooter", "igdb", "genres", "5");
    reg.register("shooter", "Shooter", "igdb", "genres", "7");
    reg.register("shooter", "Shooter", "igdb", "themes", "1");
    assert_eq!(ids(&reg, "shooter", "igdb", "genres"), vec!["5", "7"]);
    assert_eq!(ids(&reg, "shooter", "igdb", "themes"), vec!["1"]);
    assert_eq!(display_name(&reg, "shooter"), "Shooter");
}

#[test]
fn categories_stay_sorted_by_slug() {
    let mut reg = empty_registry();
    for s in ["shooter", "action", "rpg", "adventure", "rpg"] {
        reg.ensure_named(s, s);
    }
    let keys: Vec<&str> = reg.data.categories.iter().map(|(k, _)| k.as_str()).collect();
    assert_eq!(keys, vec!["action", "adventure", "rpg", "shooter"]);
    assert!(reg.data.is_well_formed());
}

#[test]
fn display_name_falls_back_to_slug() {
    let reg = empty_registry();
    assert_eq!(display_name(&reg, "unknown"), "unknown");
}

#[test]
fn user_paths_end_in_their_files() {
    assert!(user_categories_path().ends_with(b"herocat/categories.json"));
    assert!(user_games_path().ends_with(b"herocat/games.json"));
    assert_eq!(user_config_dir_in(None), b"./herocat".to_vec());
    assert_eq!(user_config_dir_in(Some(b"/home/a/.config".to_vec())), b"/home/a/.config/herocat".to_vec());
    assert_eq!(user_config_dir_in(Some(b"/cfg/".to_vec())), b"/cfg/herocat".to_vec());
    // A directory whose name is not UTF-8 is kept byte for byte.
    assert_eq!(user_config_dir_in(Some(b"/home/\xff".to_vec())), b"/home/\xff/herocat".to_vec());
}
