//! Heroic's game library: where Heroic keeps its configuration, and the games
//! of its four runners (Epic through `legendary`, GOG, Amazon through `nile`,
//! and side-loaded apps).
use vstd::prelude::*;
use vstd::string::*;

use crate::models::{library_game_of, GameInfo, LibraryGame, LibraryGameView};
use crate::paths::{join_path, join_spec};

verus! {

/// The library: the configuration root and the games of all runners.
pub struct HeroicLibrary {
    pub root: Vec<u8>,
    pub games: Vec<LibraryGame>,
}

/// Why the library could not be read.
#[derive(PartialEq, Eq, Structural, Clone, Copy, Debug)]
pub enum LibraryError {
    /// Heroic's configuration was found in neither place.
    NotFound,
}

/// The games of one runner's file; none where the file could not be read.
pub open spec fn runner_games(file: Option<Vec<GameInfo>>, runner: Seq<char>) -> Seq<LibraryGameView> {
    match file {
        Some(v) => v@.map_values(|g: GameInfo| library_game_of(g, runner)),
        None => Seq::empty(),
    }
}

/// The library's games: Epic's, then GOG's, then Amazon's, then the
/// side-loaded ones.
pub open spec fn all_games(
    epic: Option<Vec<GameInfo>>,
    gog: Option<Vec<GameInfo>>,
    nile: Option<Vec<GameInfo>>,
    sideload: Option<Vec<GameInfo>>,
) -> Seq<LibraryGameView> {
    runner_games(epic, "legendary"@) + runner_games(gog, "gog"@) + runner_games(nile, "nile"@)
        + runner_games(sideload, "sideload"@)
}

pub open spec fn games_view(v: Seq<LibraryGame>) -> Seq<LibraryGameView> {
    v.map_values(|g: LibraryGame| g@)
}

/// Appends the games of one runner's file.
fn append_runner(out: &mut Vec<LibraryGame>, file: &Option<Vec<GameInfo>>, runner: &str)
    ensures
        games_view(final(out)@) == games_view(old(out)@) + runner_games(*file, runner@),
{
    match file {
        Some(v) => {
            let n = v.len();
            let mut i: usize = 0;
            let ghost start = games_view(out@);
            while i < n
                invariant
                    n == v@.len(),
                    i <= n,
                    games_view(out@) == start + v@.take(i as int).map_values(
                        |g: GameInfo| library_game_of(g, runner@),
                    ),
                decreases n - i,
            {
                let g = v[i].to_library_game(runner);
                let ghost before = out@;
                out.push(g);
                proof {
                    assert(games_view(out@) =~= games_view(before).push(g@));
                    assert(v@.take(i + 1).map_values(|g: GameInfo| library_game_of(g, runner@))
                        =~= v@.take(i as int).map_values(|g: GameInfo| library_game_of(g, runner@)).push(
                        library_game_of(v@[i as int], runner@),
                    ));
                }
                i = i + 1;
            }
            assert(v@.take(n as int) =~= v@);
        },
        None => {
            assert(games_view(out@) =~= games_view(out@) + Seq::<LibraryGameView>::empty());
        },
    }
}

/// The games of the four runners' files in library order.
pub fn read_all_libraries(
    epic: Option<Vec<GameInfo>>,
    gog: Option<Vec<GameInfo>>,
    nile: Option<Vec<GameInfo>>,
    sideload: Option<Vec<GameInfo>>,
) -> (r: Vec<LibraryGame>)
    ensures
        games_view(r@) == all_games(epic, gog, nile, sideload),
{
    let mut games: Vec<LibraryGame> = Vec::new();
    assert(games_view(games@) =~= Seq::<LibraryGameView>::empty());
    append_runner(&mut games, &epic, "legendary");
    append_runner(&mut games, &gog, "gog");
    append_runner(&mut games, &nile, "nile");
    append_runner(&mut games, &sideload, "sideload");
    assert(games_view(games@) =~= all_games(epic, gog, nile, sideload));
    games
}

impl HeroicLibrary {
    /// The library at `root` with the games of the runners' files; an error
    /// where no configuration root was found.
    pub fn discover(
        root: Option<Vec<u8>>,
        epic: Option<Vec<GameInfo>>,
        gog: Option<Vec<GameInfo>>,
        nile: Option<Vec<GameInfo>>,
        sideload: Option<Vec<GameInfo>>,
    ) -> (r: Result<HeroicLibrary, LibraryError>)
        ensures
            root is None ==> r == Err::<HeroicLibrary, LibraryError>(LibraryError::NotFound),
            root matches Some(p) ==> (r matches Ok(lib) && lib.root == p && games_view(lib.games@)
                == all_games(epic, gog, nile, sideload)),
    {
        match root {
            Some(root) => {
                let games = read_all_libraries(epic, gog, nile, sideload);
                Ok(HeroicLibrary { root, games })
            },
            None => Err(LibraryError::NotFound),
        }
    }
}

/// Where the Flatpak build of Heroic keeps its configuration, below the home
/// directory.
pub open spec fn flatpak_config_spec() -> Seq<u8> {
    ".var/app/com.heroicgameslauncher.hgl/config/heroic".spec_bytes()
}

/// Where the native build of Heroic keeps its configuration, below the home
/// directory.
pub open spec fn native_config_spec() -> Seq<u8> {
    ".config/heroic".spec_bytes()
}

/// The two places where Heroic may keep its configuration: the Flatpak one,
/// then the native one.
pub fn heroic_root_candidates(home: &[u8]) -> (r: (Vec<u8>, Vec<u8>))
    ensures
        r.0@ == join_spec(home@, flatpak_config_spec()),
        r.1@ == join_spec(home@, native_config_spec()),
{
    (
        join_path(home, ".var/app/com.heroicgameslauncher.hgl/config/heroic".as_bytes()),
        join_path(home, ".config/heroic".as_bytes()),
    )
}

/// The user's home directory as `dirs::home_dir` finds it, as the bytes of
/// the path; `None` where it cannot be found.  What it returns depends on the
/// environment, so nothing is stated of it.
#[verifier::external_body]
fn home_dir() -> (r: Option<Vec<u8>>) {
    match dirs::home_dir() {
        Some(p) => Some(p.into_os_string().into_encoded_bytes()),
        None => None,
    }
}

/// The two places below the user's home where Heroic may keep its
/// configuration; `None` where the home directory is unknown.
pub fn home_candidates() -> (r: Option<(Vec<u8>, Vec<u8>)>)
    ensures
        r matches Some(c) ==> exists|home: Seq<u8>|
            c.0@ == join_spec(home, flatpak_config_spec()) && c.1@ == join_spec(home, native_config_spec()),
{
    match home_dir() {
        Some(h) => {
            let c = heroic_root_candidates(h.as_slice());
            assert(c.0@ == join_spec(h@, flatpak_config_spec()) && c.1@ == join_spec(h@, native_config_spec()));
            Some(c)
        },
        None => None,
    }
}

/// The directory of a candidate root that must exist for Heroic to be there.
pub fn store_cache_dir(candidate: &[u8]) -> (r: Vec<u8>)
    ensures
        r@ == join_spec(candidate@, "store_cache".spec_bytes()),
{
    join_path(candidate, "store_cache".as_bytes())
}

/// The configuration root: the Flatpak place where it holds a store cache,
/// else the native place where that does, else none.
pub fn pick_heroic_root(
    flatpak: Vec<u8>,
    flatpak_has_cache: bool,
    native: Vec<u8>,
    native_has_cache: bool,
) -> (r: Option<Vec<u8>>)
    ensures
        r == (if flatpak_has_cache {
            Some(flatpak)
        } else if native_has_cache {
            Some(native)
        } else {
            None::<Vec<u8>>
        }),
{
    if flatpak_has_cache {
        Some(flatpak)
    } else if native_has_cache {
        Some(native)
    } else {
        None
    }
}

/// The files that hold the runners' libraries below a root: Epic's, GOG's,
/// Amazon's and the side-loaded apps'.
pub fn library_files(root: &[u8]) -> (r: (Vec<u8>, Vec<u8>, Vec<u8>, Vec<u8>))
    ensures
        r.0@ == join_spec(join_spec(root@, "store_cache".spec_bytes()), "legendary_library.json".spec_bytes()),
        r.1@ == join_spec(join_spec(root@, "store_cache".spec_bytes()), "gog_library.json".spec_bytes()),
        r.2@ == join_spec(join_spec(root@, "store_cache".spec_bytes()), "nile_library.json".spec_bytes()),
        r.3@ == join_spec(root@, "sideload_apps/library.json".spec_bytes()),
{
    let cache = join_path(root, "store_cache".as_bytes());
    (
        join_path(cache.as_slice(), "legendary_library.json".as_bytes()),
        join_path(cache.as_slice(), "gog_library.json".as_bytes()),
        join_path(cache.as_slice(), "nile_library.json".as_bytes()),
        join_path(root, "sideload_apps/library.json".as_bytes()),
    )
}

} // verus!
