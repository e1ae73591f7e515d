//! The records read from Heroic's library files and from IGDB.
use vstd::prelude::*;
use vstd::string::*;

verus! {

/// A game as a Heroic library file lists it.
#[derive(Debug)]
pub struct GameInfo {
    pub app_name: String,
    pub title: String,
    pub is_installed: bool,
}

/// A library file whose games stand under `library`.
#[derive(Debug)]
pub struct LibraryWithArray {
    pub library: Vec<GameInfo>,
}

/// A library file whose games stand under `games`.
#[derive(Debug)]
pub struct GamesWithArray {
    pub games: Vec<GameInfo>,
}

/// A game of the library together with the runner (store) it comes from.
#[derive(Debug)]
pub struct LibraryGame {
    pub app_name: String,
    pub title: String,
    pub runner: String,
    pub is_installed: bool,
}

/// The abstract value of a library game.
pub struct LibraryGameView {
    pub app_name: Seq<char>,
    pub title: Seq<char>,
    pub runner: Seq<char>,
    pub is_installed: bool,
}

impl View for LibraryGame {
    type V = LibraryGameView;

    open spec fn view(&self) -> LibraryGameView {
        LibraryGameView {
            app_name: self.app_name@,
            title: self.title@,
            runner: self.runner@,
            is_installed: self.is_installed,
        }
    }
}

/// The library game that a listed game becomes under `runner`.
pub open spec fn library_game_of(g: GameInfo, runner: Seq<char>) -> LibraryGameView {
    LibraryGameView {
        app_name: g.app_name@,
        title: g.title@,
        runner,
        is_installed: g.is_installed,
    }
}

impl GameInfo {
    /// This game as a game of the library under `runner`.
    pub fn to_library_game(&self, runner: &str) -> (r: LibraryGame)
        ensures
            r@ == library_game_of(*self, runner@),
    {
        LibraryGame {
            app_name: self.app_name.clone(),
            title: self.title.clone(),
            runner: String::from_str(runner),
            is_installed: self.is_installed,
        }
    }
}

impl LibraryGame {
    /// A copy of this game.
    pub fn duplicate(&self) -> (r: LibraryGame)
        ensures
            r@ == self@,
    {
        LibraryGame {
            app_name: self.app_name.clone(),
            title: self.title.clone(),
            runner: self.runner.clone(),
            is_installed: self.is_installed,
        }
    }
}

/// An IGDB record with an id and a name (a genre, a theme).
#[derive(Debug)]
pub struct IgdbIdName {
    pub id: u64,
    pub name: String,
}

/// An IGDB record with a name and a slug.
#[derive(Debug)]
pub struct IgdbSlugName {
    pub name: String,
    pub slug: String,
}

/// A game as IGDB answers a search.
#[derive(Debug)]
pub struct IgdbGame {
    pub id: u64,
    pub name: String,
    pub genres: Vec<IgdbIdName>,
    pub themes: Vec<IgdbIdName>,
}

/// The answer to a request for an access token.
#[derive(Debug)]
pub struct IgdbAuthResponse {
    pub access_token: String,
    pub expires_in: u64,
}

} // verus!
