//! The decisions of the IGDB client: the text of a search request, how an
//! answer's status is read, when the access token must be renewed, and how
//! long to wait between requests.
use vstd::prelude::*;
use vstd::string::*;

use crate::text::push_char;

verus! {

/// The text of a search without its double quotes.
pub open spec fn without_quotes(s: Seq<char>) -> Seq<char> {
    s.filter(|c: char| c != '"')
}

/// The body of the search request for a game name: the name without double
/// quotes, in a query for the first match with its genres and themes.
pub open spec fn search_body_spec(name: Seq<char>) -> Seq<char> {
    "search \""@ + without_quotes(name) + "\"; fields name,genres.*,themes.*; limit 1;"@
}

/// The body of the search request for a game name.
pub fn search_body(name: &str) -> (r: String)
    ensures
        r@ == search_body_spec(name@),
{
    let mut out = String::from_str("search \"");
    let ghost start = out@;
    let n = name.unicode_len();
    let mut i: usize = 0;
    proof {
        reveal_with_fuel(Seq::<_>::filter, 1);
    }
    assert(out@ =~= start + name@.take(0).filter(|c: char| c != '"'));
    while i < n
        invariant
            n == name@.len(),
            i <= n,
            start == "search \""@,
            out@ == start + name@.take(i as int).filter(|c: char| c != '"'),
        decreases n - i,
    {
        let c = name.get_char(i);
        let ghost before = out@;
        if c != '"' {
            push_char(&mut out, c);
        }
        proof {
            reveal_with_fuel(Seq::<_>::filter, 1);
            let t = name@.take(i + 1);
            assert(t.drop_last() =~= name@.take(i as int));
            assert(t.last() == c);
            if c != '"' {
                assert(out@ =~= start + name@.take(i as int).filter(|c: char| c != '"').push(c));
            }
        }
        i = i + 1;
    }
    assert(name@.take(n as int) =~= name@);
    out.append("\"; fields name,genres.*,themes.*; limit 1;");
    assert(out@ =~= search_body_spec(name@));
    out
}

/// Which request identifies a game on IGDB.
#[derive(PartialEq, Eq, Structural, Clone, Copy, Debug)]
pub enum Lookup {
    /// Ask for the game with the id the store has for it.
    ById(u64),
    /// Search for the game's title.
    ByTitle,
}

/// What a lookup came back with.
#[derive(PartialEq, Eq, Structural, Clone, Copy, Debug)]
pub enum LookupAnswer {
    Found,
    NotFound,
    Failed,
}

/// The first lookup for a game: by the id the store maps it to, where there
/// is one, else by title.
pub fn first_lookup(mapped_id: Option<u64>) -> (r: Lookup)
    ensures
        r == match mapped_id {
            Some(id) => Lookup::ById(id),
            None => Lookup::ByTitle,
        },
{
    match mapped_id {
        Some(id) => Lookup::ById(id),
        None => Lookup::ByTitle,
    }
}

/// The lookup that follows an answer: a search by title where the stored id
/// found no game; none otherwise (the answer is final).
pub fn next_lookup(done: Lookup, answer: LookupAnswer) -> (r: Option<Lookup>)
    ensures
        r == (if done is ById && answer == LookupAnswer::NotFound {
            Some(Lookup::ByTitle)
        } else {
            None::<Lookup>
        }),
{
    match (done, answer) {
        (Lookup::ById(_), LookupAnswer::NotFound) => Some(Lookup::ByTitle),
        _ => None,
    }
}

/// How an answer of the IGDB API is taken.
#[derive(PartialEq, Eq, Structural, Clone, Copy, Debug)]
pub enum ApiStatus {
    /// A 2xx answer: its body holds the result.
    Success,
    /// A 429 answer: too many requests.
    RateLimited,
    /// Any other answer.
    Failed,
}

/// An HTTP status code in the 2xx range.
pub open spec fn is_success_code(code: u16) -> bool {
    200 <= code <= 299
}

/// Whether an HTTP status code is in the 2xx range.
pub fn is_success(code: u16) -> (r: bool)
    ensures
        r == is_success_code(code),
{
    200 <= code && code <= 299
}

/// How the API's answer with this status code is taken.
pub fn api_status(code: u16) -> (r: ApiStatus)
    ensures
        r == (if code == 429 {
            ApiStatus::RateLimited
        } else if is_success_code(code) {
            ApiStatus::Success
        } else {
            ApiStatus::Failed
        }),
{
    if code == 429 {
        ApiStatus::RateLimited
    } else if is_success(code) {
        ApiStatus::Success
    } else {
        ApiStatus::Failed
    }
}

/// The cached access token can still be used: there is one, and less time
/// has passed since it was obtained than it lives.
pub fn token_is_valid(token_age_ns: Option<u128>, lifetime_ns: u128) -> (r: bool)
    ensures
        r == (token_age_ns matches Some(age) && age < lifetime_ns),
{
    match token_age_ns {
        Some(age) => age < lifetime_ns,
        None => false,
    }
}

/// How many seconds a new token is used: a minute less than it lives.
pub fn token_lifetime_secs(expires_in: u64) -> (r: u64)
    requires
        expires_in >= 60,
    ensures
        r == expires_in - 60,
{
    expires_in - 60
}

/// The least time between two requests to IGDB, in nanoseconds.
pub open spec fn min_interval_ns() -> u128 {
    300_000_000
}

/// How long to wait before the next request, given the time since the last.
pub fn rate_limit_wait_ns(elapsed_ns: u128) -> (r: u128)
    ensures
        r == if elapsed_ns < min_interval_ns() {
            (min_interval_ns() - elapsed_ns) as u128
        } else {
            0
        },
{
    let min_interval: u128 = 300_000_000;
    if elapsed_ns < min_interval {
        min_interval - elapsed_ns
    } else {
        0
    }
}

/// The name in a search request holds no double quote, so it cannot end the
/// quoted search text early.
pub proof fn law_search_name_unquoted(name: Seq<char>)
    ensures
        !without_quotes(name).contains('"'),
{
    broadcast use vstd::seq_lib::group_filter_ensures;

    if without_quotes(name).contains('"') {
        let k = choose|k: int| 0 <= k < without_quotes(name).len() && without_quotes(name)[k] == '"';
        assert((|c: char| c != '"')(without_quotes(name)[k]));
    }
}

/// Waiting as told leaves at least the least interval between two requests:
/// at most one request every 300 ms, within IGDB's four per second.
pub proof fn law_rate_limit_spacing(elapsed_ns: u128, wait_ns: u128)
    requires
        wait_ns == if elapsed_ns < min_interval_ns() {
            (min_interval_ns() - elapsed_ns) as u128
        } else {
            0
        },
    ensures
        elapsed_ns + wait_ns >= min_interval_ns(),
        4 * min_interval_ns() >= 1_000_000_000,
{
}

/// Taking the quotes out of nothing leaves nothing.
pub proof fn law_without_quotes_empty()
    ensures
        without_quotes(Seq::<char>::empty()) == Seq::<char>::empty(),
{
    assert(without_quotes(Seq::<char>::empty()) =~= Seq::<char>::empty());
}

/// Taking the quotes out of a name keeps every other character, in order: a
/// character after a name is dropped where it is a double quote and kept
/// after the rest of the name otherwise.
pub proof fn law_without_quotes_step(s: Seq<char>, c: char)
    ensures
        without_quotes(s.push(c)) == (if c == '"' {
            without_quotes(s)
        } else {
            without_quotes(s).push(c)
        }),
{
    reveal_with_fuel(Seq::<_>::filter, 1);
    assert(s.push(c).drop_last() =~= s);
}

/// A name without double quotes is searched for exactly as it is written,
/// digits, spaces and signs included.
pub proof fn law_unquoted_name_searched_verbatim(name: Seq<char>)
    requires
        !name.contains('"'),
    ensures
        without_quotes(name) == name,
        search_body_spec(name) == "search \""@ + name + "\"; fields name,genres.*,themes.*; limit 1;"@,
    decreases name.len(),
{
    if name.len() == 0 {
        law_without_quotes_empty();
        assert(name =~= Seq::<char>::empty());
    } else {
        let p = name.drop_last();
        assert(!p.contains('"')) by {
            if p.contains('"') {
                let k = choose|k: int| 0 <= k < p.len() && p[k] == '"';
                assert(name[k] == '"');
            }
        }
        law_unquoted_name_searched_verbatim(p);
        assert(name.last() != '"') by {
            assert(name[name.len() - 1] == name.last());
        }
        law_without_quotes_step(p, name.last());
        assert(p.push(name.last()) =~= name);
    }
}

/// The searched text of two pieces of a name is the searched text of the
/// first followed by that of the second.
pub proof fn law_without_quotes_append(a: Seq<char>, b: Seq<char>)
    ensures
        without_quotes(a + b) == without_quotes(a) + without_quotes(b),
    decreases b.len(),
{
    if b.len() == 0 {
        law_without_quotes_empty();
        assert(a + b =~= a);
        assert(without_quotes(a) + without_quotes(b) =~= without_quotes(a));
    } else {
        let p = b.drop_last();
        law_without_quotes_append(a, p);
        law_without_quotes_step(a + p, b.last());
        law_without_quotes_step(p, b.last());
        assert((a + p).push(b.last()) =~= a + b);
        assert(p.push(b.last()) =~= b);
        if b.last() != '"' {
            assert((without_quotes(a) + without_quotes(p)).push(b.last()) =~= without_quotes(a) + without_quotes(p).push(b.last()));
        }
    }
}

} // verus!
