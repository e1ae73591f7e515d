//! The category catalog: for each category slug, its display name and the ids
//! under which outside sources (IGDB genres and themes) know it.
use vstd::prelude::*;
use vstd::string::*;

use crate::strmap::{
    assoc_map, contains_str, ensure_key, find_key, has_key, keys_in_order, keys_sorted,
    lemma_sorted_lookup, lemma_update_value, strs, value_mut,
};
use crate::text::{
    ascii_lower, char_ascii_lower, char_is_alnum, distinct, is_alnum, is_upper,
    lemma_with_unique_distinct, push_char, with_unique,
};
use crate::paths::{join_path, join_spec, opt_bytes};

verus! {

/// For one source, the ids of a category in each of its dimensions
/// (for IGDB: `genres`, `themes`).
pub type SourceIds = Vec<(String, Vec<String>)>;

/// The catalog as stored on disk.
pub struct CatalogData {
    pub version: u32,
    pub categories: Vec<(String, CategoryEntry)>,
}

/// One category: its display name and its ids per source and dimension.
pub struct CategoryEntry {
    pub name: String,
    pub sources: Vec<(String, SourceIds)>,
}

/// The catalog together with the file it is saved to.
pub struct CategoryRegistry {
    pub path: Vec<u8>,
    pub data: CatalogData,
}

/// The ids of one dimension, as character sequences.
pub type IdsView = Seq<Seq<char>>;

/// The dimensions of one source.
pub type DimsView = Map<Seq<char>, IdsView>;

/// The abstract value of a category.
pub struct CategoryView {
    pub name: Seq<char>,
    pub sources: Map<Seq<char>, DimsView>,
}

pub open spec fn dims_view(d: SourceIds) -> DimsView {
    assoc_map(d@).map_values(|ids: Vec<String>| strs(ids@))
}

pub open spec fn sources_view(s: Seq<(String, SourceIds)>) -> Map<Seq<char>, DimsView> {
    assoc_map(s).map_values(|d: SourceIds| dims_view(d))
}

impl View for CategoryEntry {
    type V = CategoryView;

    open spec fn view(&self) -> CategoryView {
        CategoryView { name: self.name@, sources: sources_view(self.sources@) }
    }
}

impl CategoryEntry {
    /// Every map of the entry has sorted keys.
    pub open spec fn wf(&self) -> bool {
        &&& keys_sorted(self.sources@)
        &&& forall|i: int| 0 <= i < self.sources@.len() ==> keys_sorted(#[trigger] self.sources@[i].1@)
    }

    /// A category named `name` that no source knows yet.
    pub fn new(name: &str) -> (r: Self)
        ensures
            r.wf(),
            r.name@ == name@,
            r.sources@.len() == 0,
            r@ == (CategoryView { name: name@, sources: Map::empty() }),
    {
        let r = CategoryEntry { name: String::from_str(name), sources: Vec::new() };
        assert(sources_view(r.sources@) =~= Map::empty());
        r
    }
}

/// Every map of a list of categories has sorted keys.
pub open spec fn cats_wf(s: Seq<(String, CategoryEntry)>) -> bool {
    &&& keys_sorted(s)
    &&& forall|i: int| 0 <= i < s.len() ==> (#[trigger] s[i].1).wf()
}

/// A list of categories as a map from slug to category.
pub open spec fn cats_view(s: Seq<(String, CategoryEntry)>) -> Map<Seq<char>, CategoryView> {
    assoc_map(s).map_values(|e: CategoryEntry| e@)
}

impl CatalogData {
    /// Every map of the catalog has sorted keys.
    pub open spec fn wf(&self) -> bool {
        cats_wf(self.categories@)
    }

    /// The categories by slug.
    pub open spec fn category_map(&self) -> Map<Seq<char>, CategoryView> {
        cats_view(self.categories@)
    }
}

/// The catalog after `ensure_named(slug, name)`: the category `slug` exists
/// and is named `name`; nothing else changes.
pub open spec fn after_ensure_named(
    cats: Map<Seq<char>, CategoryView>,
    slug: Seq<char>,
    name: Seq<char>,
) -> Map<Seq<char>, CategoryView> {
    let sources = if cats.contains_key(slug) {
        cats[slug].sources
    } else {
        Map::empty()
    };
    cats.insert(slug, CategoryView { name, sources })
}

/// The catalog after `register(slug, name, source, dimension, id)`: the
/// category `slug` exists, is named `name`, and lists `id` once under
/// `source` and `dimension`; nothing else changes.
pub open spec fn after_register(
    cats: Map<Seq<char>, CategoryView>,
    slug: Seq<char>,
    name: Seq<char>,
    source: Seq<char>,
    dimension: Seq<char>,
    id: Seq<char>,
) -> Map<Seq<char>, CategoryView> {
    let sources = if cats.contains_key(slug) {
        cats[slug].sources
    } else {
        Map::empty()
    };
    let dims = if sources.contains_key(source) {
        sources[source]
    } else {
        Map::empty()
    };
    let ids = if dims.contains_key(dimension) {
        dims[dimension]
    } else {
        Seq::empty()
    };
    let new_ids = if ids.contains(id) {
        ids
    } else {
        ids.push(id)
    };
    cats.insert(
        slug,
        CategoryView { name, sources: sources.insert(source, dims.insert(dimension, new_ids)) },
    )
}

/// The name under which a slug is shown: the category's name where the
/// catalog has the slug, else the slug itself.
pub open spec fn display_name_spec(cats: Map<Seq<char>, CategoryView>, slug: Seq<char>) -> Seq<
    char,
> {
    if cats.contains_key(slug) {
        cats[slug].name
    } else {
        slug
    }
}

proof fn lemma_cats_update(c: Seq<(String, CategoryEntry)>, i: int, e: CategoryEntry)
    requires
        keys_sorted(c),
        forall|j: int| 0 <= j < c.len() && j != i ==> (#[trigger] c[j].1).wf(),
        0 <= i < c.len(),
    ensures
        ({
            let s = c.update(i, (c[i].0, e));
            &&& e.wf() ==> cats_wf(s)
            &&& cats_view(s) == cats_view(c).insert(c[i].0@, e@)
        }),
{
    let s = c.update(i, (c[i].0, e));
    lemma_update_value(c, i, e);
    assert forall|j: int| 0 <= j < s.len() && j != i implies (#[trigger] s[j].1).wf() by {
        assert(s[j] == c[j]);
    }
    assert(cats_view(s) =~= cats_view(c).insert(c[i].0@, e@));
}

impl CategoryEntry {
    /// Whether every map of the entry has sorted keys.
    pub fn is_well_formed(&self) -> (r: bool)
        ensures
            r == self.wf(),
    {
        if !keys_in_order(&self.sources) {
            return false;
        }
        let n = self.sources.len();
        let mut i: usize = 0;
        while i < n
            invariant
                n == self.sources@.len(),
                i <= n,
                forall|j: int| 0 <= j < i ==> keys_sorted(#[trigger] self.sources@[j].1@),
            decreases n - i,
        {
            if !keys_in_order(&self.sources[i].1) {
                return false;
            }
            i = i + 1;
        }
        true
    }
}

impl CatalogData {
    /// Whether every map of the catalog has sorted keys.
    pub fn is_well_formed(&self) -> (r: bool)
        ensures
            r == self.wf(),
    {
        if !keys_in_order(&self.categories) {
            return false;
        }
        let n = self.categories.len();
        let mut i: usize = 0;
        while i < n
            invariant
                n == self.categories@.len(),
                i <= n,
                forall|j: int| 0 <= j < i ==> (#[trigger] self.categories@[j].1).wf(),
            decreases n - i,
        {
            if !self.categories[i].1.is_well_formed() {
                return false;
            }
            i = i + 1;
        }
        true
    }
}

impl CategoryRegistry {
    pub open spec fn wf(&self) -> bool {
        self.data.wf()
    }

    /// The catalog as read from `path`; a format version of 0 counts as 1.
    pub fn from_loaded(path: Vec<u8>, data: CatalogData) -> (r: CategoryRegistry)
        requires
            data.wf(),
        ensures
            r.wf(),
            r.path == path,
            r.data.categories == data.categories,
            r.data.version == (if data.version == 0 {
                1
            } else {
                data.version
            }),
    {
        let mut data = data;
        if data.version == 0 {
            data.version = 1;
        }
        CategoryRegistry { path, data }
    }

    /// The category `slug`, added with `slug` as its name where the catalog
    /// does not have it yet.
    pub fn entry(&mut self, slug: &str) -> (r: &mut CategoryEntry)
        requires
            old(self).wf(),
        ensures
            r.wf(),
            r@ == (if old(self).data.category_map().contains_key(slug@) {
                old(self).data.category_map()[slug@]
            } else {
                CategoryView { name: slug@, sources: Map::empty() }
            }),
            final(r).wf() ==> final(self).wf(),
            final(self).data.category_map() == old(self).data.category_map().insert(
                slug@,
                final(r)@,
            ),
            final(self).data.version == old(self).data.version,
            final(self).path == old(self).path,
    {
        let ghost old_cats = self.data.categories@;
        let fresh = CategoryEntry::new(slug);
        let i = ensure_key(&mut self.data.categories, slug, fresh);
        let ghost mid = self.data.categories@;
        proof {
            if has_key(old_cats, slug@) {
                let j = choose|j: int| 0 <= j < old_cats.len() && #[trigger] old_cats[j].0@ == slug@;
                lemma_sorted_lookup(old_cats, j);
                lemma_sorted_lookup(old_cats, i as int);
            }
            assert forall|j: int| 0 <= j < mid.len() implies (#[trigger] mid[j].1).wf() by {
                if !has_key(old_cats, slug@) {
                    if j < i {
                        assert(mid[j] == old_cats[j]);
                    } else if j > i {
                        assert(mid[j] == old_cats[j - 1]);
                    }
                }
            }
            lemma_sorted_lookup(mid, i as int);
            assert(self.data.category_map() =~= (if old(self).data.category_map().contains_key(
                slug@,
            ) {
                old(self).data.category_map()
            } else {
                old(self).data.category_map().insert(slug@, fresh@)
            }));
        }
        let r = value_mut(&mut self.data.categories, i);
        proof {
            lemma_cats_update(mid, i as int, *final(r));
        }
        r
    }

    /// Gives the category `slug` the name `name`, adding it where it is missing.
    pub fn ensure_named(&mut self, slug: &str, name: &str)
        requires
            old(self).wf(),
        ensures
            final(self).wf(),
            final(self).data.category_map() == after_ensure_named(
                old(self).data.category_map(),
                slug@,
                name@,
            ),
            final(self).data.version == old(self).data.version,
            final(self).path == old(self).path,
    {
        let entry = self.entry(slug);
        entry.name = String::from_str(name);
        proof {
            assert(after_ensure_named(old(self).data.category_map(), slug@, name@)
                =~= old(self).data.category_map().insert(slug@, entry@));
        }
    }

    /// Records that `source` knows the category `slug`, named `name`, as `id`
    /// in `dimension`, and returns the slug.
    pub fn register(
        &mut self,
        slug: &str,
        name: &str,
        source: &str,
        dimension: &str,
        id: &str,
    ) -> (r: String)
        requires
            old(self).wf(),
        ensures
            final(self).wf(),
            r@ == slug@,
            final(self).data.category_map() == after_register(
                old(self).data.category_map(),
                slug@,
                name@,
                source@,
                dimension@,
                id@,
            ),
            final(self).data.version == old(self).data.version,
            final(self).path == old(self).path,
    {
        let entry = self.entry(slug);
        let ghost e0 = *entry;
        entry.name = String::from_str(name);
        let si = ensure_key(&mut entry.sources, source, Vec::new());
        let ghost s1 = entry.sources@;
        proof {
            assert forall|j: int| 0 <= j < s1.len() implies keys_sorted(#[trigger] s1[j].1@) by {
                if !has_key(e0.sources@, source@) {
                    if j < si {
                        assert(s1[j] == e0.sources@[j]);
                    } else if j > si {
                        assert(s1[j] == e0.sources@[j - 1]);
                    }
                }
            }
        }
        let dims = value_mut(&mut entry.sources, si);
        let ghost d0 = *dims;
        let di = ensure_key(dims, dimension, Vec::new());
        let ghost d1 = *dims;
        let ids = value_mut(dims, di);
        let ghost ids0 = *ids;
        if !contains_str(ids, id) {
            ids.push(String::from_str(id));
        }
        let ghost ids1 = *ids;
        proof {
            let src = source@;
            let dim = dimension@;
            let cats = old(self).data.category_map();
            let old_sources = if cats.contains_key(slug@) {
                cats[slug@].sources
            } else {
                Map::empty()
            };
            assert(sources_view(e0.sources@) == old_sources);
            // dimension map
            lemma_update_value(d1@, di as int, ids1);
            let d2 = d1@.update(di as int, (d1@[di as int].0, ids1));
            lemma_sorted_lookup(d1@, di as int);
            assert(strs(ids1@) == (if strs(ids0@).contains(id@) {
                strs(ids0@)
            } else {
                strs(ids0@).push(id@)
            })) by {
                if !strs(ids0@).contains(id@) {
                    assert(strs(ids1@) =~= strs(ids0@).push(id@));
                }
            }
            let old_dims = if old_sources.contains_key(src) {
                old_sources[src]
            } else {
                Map::empty()
            };
            lemma_sorted_lookup(s1, si as int);
            if has_key(e0.sources@, src) {
                assert(dims_view(d0) == old_dims);
            } else {
                assert(d0@.len() == 0);
                assert(dims_view(d0) =~= old_dims);
            }
            let old_ids = if old_dims.contains_key(dim) {
                old_dims[dim]
            } else {
                Seq::empty()
            };
            if has_key(d0@, dim) {
                assert(strs(ids0@) == old_ids);
            } else {
                assert(strs(ids0@) =~= old_ids);
            }
            assert(assoc_map(d2).map_values(|ids: Vec<String>| strs(ids@)) =~= old_dims.insert(
                dim,
                strs(ids1@),
            ));
            // source map
            let final_dims: SourceIds = *final(dims);
            assert(final_dims@ == d2);
            lemma_update_value(s1, si as int, final_dims);
            let s2 = s1.update(si as int, (s1[si as int].0, final_dims));
            assert(sources_view(s2) =~= old_sources.insert(src, dims_view(final_dims)));
            assert forall|j: int| 0 <= j < s2.len() implies keys_sorted(#[trigger] s2[j].1@) by {
                if j != si {
                    assert(s2[j] == s1[j]);
                }
            }
        }
        String::from_str(slug)
    }
}

/// The catalog file to read: the user's copy where it exists, else the seed
/// catalog shipped with the tool.
pub fn catalog_source(user_path: Vec<u8>, user_exists: bool, seed_path: Vec<u8>) -> (r: Vec<u8>)
    ensures
        r == (if user_exists {
            user_path
        } else {
            seed_path
        }),
{
    if user_exists {
        user_path
    } else {
        seed_path
    }
}

/// The user's configuration directory as `dirs::config_dir` finds it, as the
/// bytes of the path; `None` where the system defines none.  What it returns
/// depends on the environment, so nothing is stated of it.
#[verifier::external_body]
fn config_dir() -> (r: Option<Vec<u8>>) {
    match dirs::config_dir() {
        Some(p) => Some(p.into_os_string().into_encoded_bytes()),
        None => None,
    }
}

/// The tool's own configuration directory below a base directory, or below
/// the working directory where there is no base.
pub open spec fn user_config_dir_spec(base: Option<Seq<u8>>) -> Seq<u8> {
    join_spec(
        match base {
            Some(b) => b,
            None => ".".spec_bytes(),
        },
        "herocat".spec_bytes(),
    )
}

/// The tool's own configuration directory below a base directory.
pub fn user_config_dir_in(base: Option<Vec<u8>>) -> (r: Vec<u8>)
    ensures
        r@ == user_config_dir_spec(opt_bytes(base)),
{
    match base {
        Some(b) => join_path(b.as_slice(), "herocat".as_bytes()),
        None => join_path(".".as_bytes(), "herocat".as_bytes()),
    }
}

/// The tool's own configuration directory below the user's.
fn user_config_dir() -> (r: Vec<u8>)
    ensures
        exists|b: Option<Seq<u8>>| r@ == user_config_dir_spec(b),
{
    let base = config_dir();
    let r = user_config_dir_in(base);
    assert(r@ == user_config_dir_spec(opt_bytes(base)));
    r
}

/// Where the user's copy of the catalog is kept.
pub fn user_categories_path() -> (r: Vec<u8>)
    ensures
        exists|b: Option<Seq<u8>>| r@ == join_spec(user_config_dir_spec(b), "categories.json".spec_bytes()),
{
    let d = user_config_dir();
    join_path(d.as_slice(), "categories.json".as_bytes())
}

/// Where the store of classified games is kept.
pub fn user_games_path() -> (r: Vec<u8>)
    ensures
        exists|b: Option<Seq<u8>>| r@ == join_spec(user_config_dir_spec(b), "games.json".spec_bytes()),
{
    let d = user_config_dir();
    join_path(d.as_slice(), "games.json".as_bytes())
}

/// The ids listed for a category under a source and dimension; none where
/// the catalog lacks any of them.
pub open spec fn ids_under(
    cats: Map<Seq<char>, CategoryView>,
    slug: Seq<char>,
    source: Seq<char>,
    dimension: Seq<char>,
) -> Seq<Seq<char>> {
    if cats.contains_key(slug) && cats[slug].sources.contains_key(source)
        && cats[slug].sources[source].contains_key(dimension) {
        cats[slug].sources[source][dimension]
    } else {
        Seq::empty()
    }
}

/// Registering records the name and the id: afterwards the category is shown
/// under `name` and lists `id` under its source and dimension, in addition to
/// the ids it listed before.
pub proof fn law_register_records(
    cats: Map<Seq<char>, CategoryView>,
    slug: Seq<char>,
    name: Seq<char>,
    source: Seq<char>,
    dimension: Seq<char>,
    id: Seq<char>,
)
    ensures
        display_name_spec(after_register(cats, slug, name, source, dimension, id), slug) == name,
        ids_under(after_register(cats, slug, name, source, dimension, id), slug, source, dimension)
            == with_unique(ids_under(cats, slug, source, dimension), id),
        ids_under(after_register(cats, slug, name, source, dimension, id), slug, source, dimension).contains(id),
{
    let ids = ids_under(cats, slug, source, dimension);
    if !ids.contains(id) {
        assert(ids.push(id)[ids.len() as int] == id);
    }
}

/// Registering the same record twice leaves the catalog as registering it
/// once does.
pub proof fn law_register_idempotent(
    cats: Map<Seq<char>, CategoryView>,
    slug: Seq<char>,
    name: Seq<char>,
    source: Seq<char>,
    dimension: Seq<char>,
    id: Seq<char>,
)
    ensures
        after_register(after_register(cats, slug, name, source, dimension, id), slug, name, source, dimension, id)
            == after_register(cats, slug, name, source, dimension, id),
{
    law_register_records(cats, slug, name, source, dimension, id);
    let c1 = after_register(cats, slug, name, source, dimension, id);
    let s1 = c1[slug].sources;
    let d1 = s1[source];
    assert(d1.insert(dimension, d1[dimension]) =~= d1);
    assert(s1.insert(source, d1) =~= s1);
    assert(after_register(c1, slug, name, source, dimension, id) =~= c1);
}

/// Registering never lists an id twice: ids that were distinct stay distinct.
pub proof fn law_register_keeps_ids_distinct(
    cats: Map<Seq<char>, CategoryView>,
    slug: Seq<char>,
    name: Seq<char>,
    source: Seq<char>,
    dimension: Seq<char>,
    id: Seq<char>,
)
    requires
        distinct(ids_under(cats, slug, source, dimension)),
    ensures
        distinct(ids_under(after_register(cats, slug, name, source, dimension, id), slug, source, dimension)),
{
    law_register_records(cats, slug, name, source, dimension, id);
    lemma_with_unique_distinct(ids_under(cats, slug, source, dimension), id);
}

/// Registering changes no other category.
pub proof fn law_register_keeps_others(
    cats: Map<Seq<char>, CategoryView>,
    slug: Seq<char>,
    name: Seq<char>,
    source: Seq<char>,
    dimension: Seq<char>,
    id: Seq<char>,
    other: Seq<char>,
)
    requires
        other != slug,
    ensures
        after_register(cats, slug, name, source, dimension, id).contains_key(other) == cats.contains_key(other),
        cats.contains_key(other) ==> after_register(cats, slug, name, source, dimension, id)[other] == cats[other],
{
}

/// Naming a category makes it shown under that name, keeps the ids it had,
/// and changes no other category.
pub proof fn law_ensure_named(cats: Map<Seq<char>, CategoryView>, slug: Seq<char>, name: Seq<char>)
    ensures
        display_name_spec(after_ensure_named(cats, slug, name), slug) == name,
        forall|s: Seq<char>, d: Seq<char>| #[trigger] ids_under(after_ensure_named(cats, slug, name), slug, s, d)
            == ids_under(cats, slug, s, d),
        forall|o: Seq<char>| o != slug ==> #[trigger] display_name_spec(after_ensure_named(cats, slug, name), o)
            == display_name_spec(cats, o),
{
}

/// The name under which a slug is shown.
pub fn display_name(catalog: &CategoryRegistry, slug: &str) -> (r: String)
    requires
        catalog.wf(),
    ensures
        r@ == display_name_spec(catalog.data.category_map(), slug@),
{
    match find_key(&catalog.data.categories, slug) {
        Some(i) => {
            proof {
                lemma_sorted_lookup(catalog.data.categories@, i as int);
            }
            catalog.data.categories[i].1.name.clone()
        },
        None => String::from_str(slug),
    }
}

/// The maximal runs of ASCII letters and digits of `s`, lower-cased, in order.
pub open spec fn slug_words(s: Seq<char>) -> Seq<Seq<char>>
    decreases s.len(),
{
    if s.len() == 0 {
        Seq::empty()
    } else {
        let w = slug_words(s.drop_last());
        let c = s.last();
        if !is_alnum(c) {
            w
        } else if s.len() >= 2 && is_alnum(s[s.len() - 2]) {
            w.update(w.len() - 1, w.last().push(ascii_lower(c)))
        } else {
            w.push(seq![ascii_lower(c)])
        }
    }
}

/// Words joined by single dashes.
pub open spec fn join_dash(ws: Seq<Seq<char>>) -> Seq<char>
    decreases ws.len(),
{
    if ws.len() == 0 {
        Seq::empty()
    } else if ws.len() == 1 {
        ws[0]
    } else {
        join_dash(ws.drop_last()) + seq!['-'] + ws.last()
    }
}

/// The slug of a text: its runs of ASCII letters and digits, lower-cased and
/// joined by single dashes; everything else is dropped.
pub open spec fn slug_of(s: Seq<char>) -> Seq<char> {
    join_dash(slug_words(s))
}

proof fn lemma_join_extend(w: Seq<Seq<char>>, x: char)
    requires
        w.len() > 0,
    ensures
        join_dash(w.update(w.len() - 1, w.last().push(x))) == join_dash(w).push(x),
{
    let w2 = w.update(w.len() - 1, w.last().push(x));
    if w.len() > 1 {
        assert(w2.drop_last() =~= w.drop_last());
        assert(join_dash(w2) =~= join_dash(w).push(x));
    }
}

/// The slug of a text, as `slug_of` defines it.
pub fn slugify(s: &str) -> (r: String)
    ensures
        r@ == slug_of(s@),
{
    let mut out = String::new();
    let mut prev_alnum = false;
    let mut any = false;
    let n = s.unicode_len();
    let mut i: usize = 0;
    assert(s@.take(0) =~= Seq::<char>::empty());
    while i < n
        invariant
            n == s@.len(),
            i <= n,
            out@ == join_dash(slug_words(s@.take(i as int))),
            prev_alnum == (i > 0 && is_alnum(s@[i - 1])),
            any == (slug_words(s@.take(i as int)).len() > 0),
            prev_alnum ==> any,
        decreases n - i,
    {
        let c = s.get_char(i);
        let ghost p = s@.take(i as int);
        let ghost p1 = s@.take(i + 1);
        assert(p1.drop_last() =~= p);
        assert(p1.last() == c);
        if char_is_alnum(c) {
            let l = char_ascii_lower(c);
            if prev_alnum {
                push_char(&mut out, l);
                proof {
                    assert(p1[p1.len() - 2] == s@[i - 1]);
                    lemma_join_extend(slug_words(p), l);
                }
            } else {
                if any {
                    push_char(&mut out, '-');
                }
                push_char(&mut out, l);
                proof {
                    let w = slug_words(p);
                    if i > 0 {
                        assert(p1[p1.len() - 2] == s@[i - 1]);
                    }
                    assert(w.push(seq![l]).drop_last() =~= w);
                    if w.len() == 0 {
                        assert(out@ =~= seq![l]);
                    } else {
                        assert(out@ =~= join_dash(w) + seq!['-'] + seq![l]);
                    }
                }
            }
            prev_alnum = true;
            any = true;
        } else {
            prev_alnum = false;
        }
        i = i + 1;
    }
    assert(s@.take(n as int) =~= s@);
    out
}

/// A lower-case ASCII letter or a digit.
pub open spec fn is_lower_alnum(c: char) -> bool {
    is_alnum(c) && !is_upper(c)
}

/// A non-empty run of lower-case ASCII letters and digits.
pub open spec fn is_slug_word(w: Seq<char>) -> bool {
    w.len() > 0 && forall|i: int| 0 <= i < w.len() ==> is_lower_alnum(#[trigger] w[i])
}

proof fn lemma_lower_of_alnum(c: char)
    requires
        is_alnum(c),
    ensures
        is_lower_alnum(ascii_lower(c)),
{
}

proof fn lemma_lower_of_lower(c: char)
    requires
        is_lower_alnum(c),
    ensures
        ascii_lower(c) == c,
{
}

/// Every word of a text is a slug word.
proof fn lemma_words_are_slug_words(s: Seq<char>)
    ensures
        forall|k: int| 0 <= k < slug_words(s).len() ==> is_slug_word(#[trigger] slug_words(s)[k]),
    decreases s.len(),
{
    if s.len() > 0 {
        let w = slug_words(s.drop_last());
        lemma_words_are_slug_words(s.drop_last());
        let c = s.last();
        if is_alnum(c) {
            lemma_lower_of_alnum(c);
            if s.len() >= 2 && is_alnum(s[s.len() - 2]) {
                // the previous character ends a word
                let d = s.drop_last();
                assert(d.last() == s[s.len() - 2]);
                assert(d.drop_last().len() + 1 == d.len());
                assert(w.len() > 0) by {
                    lemma_last_alnum_has_word(d);
                }
                let nw = w.last().push(ascii_lower(c));
                assert(is_slug_word(nw)) by {
                    assert(is_slug_word(w[w.len() - 1]));
                    assert forall|i: int| 0 <= i < nw.len() implies is_lower_alnum(#[trigger] nw[i]) by {
                        if i < nw.len() - 1 {
                            assert(nw[i] == w[w.len() - 1][i]);
                        }
                    }
                }
            } else {
                assert(is_slug_word(seq![ascii_lower(c)]));
            }
        }
    }
}

/// A text that ends in a letter or digit has at least one word.
proof fn lemma_last_alnum_has_word(s: Seq<char>)
    requires
        s.len() > 0,
        is_alnum(s.last()),
    ensures
        slug_words(s).len() > 0,
    decreases s.len(),
{
    if s.len() >= 2 && is_alnum(s[s.len() - 2]) {
        let d = s.drop_last();
        assert(d.last() == s[s.len() - 2]);
        lemma_last_alnum_has_word(d);
    }
}

/// The words of a single slug word are that word.
proof fn lemma_words_of_word(w: Seq<char>)
    requires
        is_slug_word(w),
    ensures
        slug_words(w) == seq![w],
    decreases w.len(),
{
    let x = w.last();
    lemma_lower_of_lower(x);
    assert(is_lower_alnum(w[w.len() - 1]));
    if w.len() == 1 {
        assert(w.drop_last() =~= Seq::<char>::empty());
        assert(slug_words(w.drop_last()) =~= Seq::<Seq<char>>::empty());
        assert(slug_words(w) == slug_words(w.drop_last()).push(seq![ascii_lower(x)]));
        assert(seq![ascii_lower(x)] =~= w);
        assert(slug_words(w) =~= seq![w]);
    } else {
        let d = w.drop_last();
        assert(is_slug_word(d)) by {
            assert forall|i: int| 0 <= i < d.len() implies is_lower_alnum(#[trigger] d[i]) by {
                assert(d[i] == w[i]);
            }
        }
        lemma_words_of_word(d);
        assert(w[w.len() - 2] == d[d.len() - 1]);
        assert(d.push(x) =~= w);
        assert(slug_words(w) =~= seq![w]);
    }
}

/// A dash followed by a slug word adds that word.
proof fn lemma_words_after_dash(a: Seq<char>, w: Seq<char>)
    requires
        is_slug_word(w),
    ensures
        slug_words(a + seq!['-'] + w) == slug_words(a).push(w),
    decreases w.len(),
{
    let t = a + seq!['-'] + w;
    let x = w.last();
    lemma_lower_of_lower(x);
    if w.len() == 1 {
        let ad = a + seq!['-'];
        assert(t.drop_last() =~= ad);
        assert(ad.drop_last() =~= a);
        assert(slug_words(ad) == slug_words(a));
        assert(t[t.len() - 2] == '-');
        assert(seq![ascii_lower(x)] =~= w);
    } else {
        let d = w.drop_last();
        assert(is_slug_word(d)) by {
            assert forall|i: int| 0 <= i < d.len() implies is_lower_alnum(#[trigger] d[i]) by {
                assert(d[i] == w[i]);
            }
        }
        lemma_words_after_dash(a, d);
        assert(t.drop_last() =~= a + seq!['-'] + d);
        assert(t[t.len() - 2] == d[d.len() - 1]);
        assert(d.push(x) =~= w);
        assert(slug_words(t) =~= slug_words(a).push(w));
    }
}

/// Joining slug words and splitting the result again gives the words back.
proof fn lemma_words_of_join(ws: Seq<Seq<char>>)
    requires
        forall|k: int| 0 <= k < ws.len() ==> is_slug_word(#[trigger] ws[k]),
    ensures
        slug_words(join_dash(ws)) == ws,
    decreases ws.len(),
{
    if ws.len() == 0 {
        assert(slug_words(Seq::<char>::empty()) =~= ws);
    } else if ws.len() == 1 {
        assert(is_slug_word(ws[0]));
        lemma_words_of_word(ws[0]);
        assert(seq![ws[0]] =~= ws);
    } else {
        let d = ws.drop_last();
        assert forall|k: int| 0 <= k < d.len() implies is_slug_word(#[trigger] d[k]) by {
            assert(d[k] == ws[k]);
        }
        lemma_words_of_join(d);
        assert(is_slug_word(ws[ws.len() - 1]));
        lemma_words_after_dash(join_dash(d), ws.last());
        assert(d.push(ws.last()) =~= ws);
    }
}

/// Made of lower-case ASCII letters, digits and dashes, with no dash first,
/// last, or next to another.
pub open spec fn is_slug(t: Seq<char>) -> bool {
    &&& forall|i: int| 0 <= i < t.len() ==> is_lower_alnum(#[trigger] t[i]) || t[i] == '-'
    &&& t.len() > 0 ==> t[0] != '-' && t[t.len() - 1] != '-'
    &&& forall|i: int| 0 <= i < t.len() - 1 ==> !(#[trigger] t[i] == '-' && t[i + 1] == '-')
}

proof fn lemma_join_is_slug(ws: Seq<Seq<char>>)
    requires
        forall|k: int| 0 <= k < ws.len() ==> is_slug_word(#[trigger] ws[k]),
    ensures
        is_slug(join_dash(ws)),
        ws.len() > 0 ==> join_dash(ws).len() > 0,
    decreases ws.len(),
{
    if ws.len() == 1 {
        assert(is_slug_word(ws[0]));
    } else if ws.len() > 1 {
        let d = ws.drop_last();
        assert forall|k: int| 0 <= k < d.len() implies is_slug_word(#[trigger] d[k]) by {
            assert(d[k] == ws[k]);
        }
        lemma_join_is_slug(d);
        let a = join_dash(d);
        let w = ws.last();
        assert(is_slug_word(ws[ws.len() - 1]));
        let t = a + seq!['-'] + w;
        assert(join_dash(ws) == t);
        let n = a.len() as int;
        assert forall|i: int| 0 <= i < t.len() implies is_lower_alnum(#[trigger] t[i]) || t[i] == '-' by {
            if i < n {
                assert(t[i] == a[i]);
            } else if i > n {
                assert(t[i] == w[i - n - 1]);
            }
        }
        assert(t[0] == a[0]);
        assert(t[t.len() - 1] == w[w.len() - 1]);
        assert forall|i: int| 0 <= i < t.len() - 1 implies !(#[trigger] t[i] == '-' && t[i + 1] == '-') by {
            if i < n - 1 {
                assert(t[i] == a[i] && t[i + 1] == a[i + 1]);
            } else if i == n - 1 {
                assert(t[i] == a[n - 1]);
            } else if i == n {
                assert(t[i + 1] == w[0]);
            } else {
                assert(t[i] == w[i - n - 1]);
            }
        }
    }
}

/// A slug is made of lower-case ASCII letters, digits and single inner
/// dashes.
pub proof fn law_slug_shape(s: Seq<char>)
    ensures
        is_slug(slug_of(s)),
{
    lemma_words_are_slug_words(s);
    lemma_join_is_slug(slug_words(s));
}

/// A slug is its own slug: slugifying twice gives what slugifying once gives.
pub proof fn law_slug_idempotent(s: Seq<char>)
    ensures
        slug_of(slug_of(s)) == slug_of(s),
{
    lemma_words_are_slug_words(s);
    lemma_words_of_join(slug_words(s));
}

} // verus!
