use herocat::heroic_config::HeroicConfig;
use herocat::json::{Json, JsonNumber};

fn obj(members: Vec<(&str, Json)>) -> Json {
    Json::Object(members.into_iter().map(|(k, v)| (k.to_string(), v)).collect())
}

fn s(x: &str) -> Json {
    Json::Str(x.to_string())
}

fn member<'a>(v: &'a Json, k: &str) -> Option<&'a Json> {
    match v {
        Json::Object(m) => m.iter().find(|(key, _)| key == k).map(|(_, v)| v),
        _ => None,
    }
}

fn config(data: Json) -> HeroicConfig {
    HeroicConfig::from_loaded(b"config.json".to_vec(), data)
}

#[test]
fn config_path_below_root() {
    assert_eq!(HeroicConfig::config_path(b"/home/a/.config/heroic"), b"/home/a/.config/heroic/store/config.json".to_vec());
}

#[test]
fn categories_of_a_document_without_any() {
    let c = config(obj(vec![("defaultSettings", obj(vec![]))]));
    assert!(c.categories().is_empty());
    let c = config(obj(vec![("games", Json::Array(vec![]))]));
    assert!(c.categories().is_empty());
}

#[test]
fn set_categories_keeps_the_rest() {
    let mut c = config(obj(vec![
        ("defaultSettings", obj(vec![("x", Json::Bool(true))])),
        ("games", obj(vec![("favourites", Json::Array(vec![s("a")])), ("customCategories", obj(vec![]))])),
        ("version", Json::Number(JsonNumber::PosInt(3))),
    ]));
    c.set_categories(vec![("RPG".to_string(), Json::Array(vec![s("a_gog")]))]);
    let cats = c.categories();
    assert_eq!(cats.len(), 1);
    assert_eq!(cats[0].0, "RPG");
    assert!(matches!(&cats[0].1, Json::Array(a) if a.len() == 1));
    let games = member(&c.data, "games").unwrap();
    assert!(matches!(member(games, "favourites"), Some(Json::Array(a)) if a.len() == 1));
    assert!(matches!(member(&c.data, "defaultSettings"), Some(Json::Object(_))));
    assert!(matches!(member(&c.data, "version"), Some(Json::Number(JsonNumber::PosInt(3)))));
}

#[test]
fn set_categories_on_null_and_on_non_object_games() {
    let mut c = config(Json::Null);
    c.set_categories(vec![("A".to_string(), Json::Array(vec![]))]);
    assert_eq!(c.categories().len(), 1);
    let mut c = config(obj(vec![("games", s("oops"))]));
    c.set_categories(vec![]);
    assert!(matches!(member(&c.data, "games"), Some(Json::Object(_))));
    assert!(c.categories().is_empty());
}

#[test]
fn add_game_to_category_adds_once() {
    let mut c = config(obj(vec![]));
    c.add_game_to_category("RPG", "a_gog");
    c.add_game_to_category("RPG", "a_gog");
    c.add_game_to_category("RPG", "b_gog");
    c.add_game_to_category("Indie", "a_gog");
    let cats = c.categories();
    let rpg = cats.iter().find(|(k, _)| k == "RPG").unwrap();
    assert!(matches!(&rpg.1, Json::Array(a) if a.len() == 2));
    assert_eq!(cats.len(), 2);
    assert!(c.is_well_formed());
}
