//! Ordered string-keyed association lists.
//!
//! Every map of this crate is a `Vec<(String, V)>` whose keys are strictly
//! increasing in the lexicographic order of their characters (the order in
//! which a `BTreeMap<String, _>` walks its keys).  The abstract value of such a
//! list is the `Map` from key characters to values that `assoc_map` gives.
use vstd::prelude::*;
use vstd::string::*;

verus! {

/// Lexicographic order on character sequences, character by character by
/// code point, a proper prefix coming first.
pub open spec fn key_lt(a: Seq<char>, b: Seq<char>) -> bool
    decreases a.len(),
{
    if a.len() == 0 {
        b.len() > 0
    } else if b.len() == 0 {
        false
    } else if (a[0] as int) < (b[0] as int) {
        true
    } else if a[0] == b[0] {
        key_lt(a.drop_first(), b.drop_first())
    } else {
        false
    }
}

pub proof fn lemma_key_lt_irreflexive(a: Seq<char>)
    ensures
        !key_lt(a, a),
    decreases a.len(),
{
    if a.len() > 0 {
        lemma_key_lt_irreflexive(a.drop_first());
    }
}

pub proof fn lemma_key_lt_asymmetric(a: Seq<char>, b: Seq<char>)
    ensures
        key_lt(a, b) ==> !key_lt(b, a),
    decreases a.len(),
{
    if a.len() > 0 && b.len() > 0 && a[0] == b[0] {
        lemma_key_lt_asymmetric(a.drop_first(), b.drop_first());
    }
}

pub proof fn lemma_key_lt_transitive(a: Seq<char>, b: Seq<char>, c: Seq<char>)
    ensures
        key_lt(a, b) && key_lt(b, c) ==> key_lt(a, c),
    decreases a.len(),
{
    if a.len() > 0 && b.len() > 0 && c.len() > 0 {
        lemma_key_lt_transitive(a.drop_first(), b.drop_first(), c.drop_first());
    }
}

pub proof fn lemma_key_lt_total(a: Seq<char>, b: Seq<char>)
    ensures
        a != b ==> key_lt(a, b) || key_lt(b, a),
    decreases a.len(),
{
    if a.len() == 0 {
        if b.len() == 0 {
            assert(a =~= b);
        }
    } else if b.len() > 0 && a[0] == b[0] {
        lemma_key_lt_total(a.drop_first(), b.drop_first());
        if a.drop_first() == b.drop_first() {
            assert(a.drop_first().len() == b.drop_first().len());
            assert(a.len() == b.len());
            assert(a =~= b) by {
                assert forall|i: int| 0 <= i < a.len() implies a[i] == b[i] by {
                    if i > 0 {
                        assert(a[i] == a.drop_first()[i - 1]);
                        assert(b[i] == b.drop_first()[i - 1]);
                    }
                }
            }
        }
    }
}

/// The three outcomes of comparing two keys.
#[derive(PartialEq, Eq, Structural, Clone, Copy, Debug)]
pub enum KeyOrder {
    Less,
    Equal,
    Greater,
}

/// Compares two strings in the order `key_lt` defines.
pub fn compare_keys(a: &str, b: &str) -> (r: KeyOrder)
    ensures
        (r == KeyOrder::Less) == key_lt(a@, b@),
        (r == KeyOrder::Equal) == (a@ == b@),
        (r == KeyOrder::Greater) == key_lt(b@, a@),
{
    proof {
        lemma_key_lt_irreflexive(a@);
        lemma_key_lt_asymmetric(a@, b@);
        lemma_key_lt_total(a@, b@);
    }
    let la = a.unicode_len();
    let lb = b.unicode_len();
    let mut i: usize = 0;
    assert(a@.skip(0) =~= a@);
    assert(b@.skip(0) =~= b@);
    while i < la && i < lb
        invariant
            la == a@.len(),
            lb == b@.len(),
            i <= la,
            i <= lb,
            key_lt(a@, b@) == key_lt(a@.skip(i as int), b@.skip(i as int)),
            key_lt(b@, a@) == key_lt(b@.skip(i as int), a@.skip(i as int)),
            a@.take(i as int) == b@.take(i as int),
        decreases la - i,
    {
        let ca = a.get_char(i);
        let cb = b.get_char(i);
        assert(a@.skip(i as int)[0] == ca);
        assert(b@.skip(i as int)[0] == cb);
        if (ca as u32) < (cb as u32) {
            return KeyOrder::Less;
        }
        if (cb as u32) < (ca as u32) {
            return KeyOrder::Greater;
        }
        assert(a@.skip(i as int).drop_first() =~= a@.skip(i + 1));
        assert(b@.skip(i as int).drop_first() =~= b@.skip(i + 1));
        assert(a@.take(i + 1) =~= a@.take(i as int).push(ca));
        assert(b@.take(i + 1) =~= b@.take(i as int).push(cb));
        i = i + 1;
    }
    if i == la && i == lb {
        assert(a@ =~= a@.take(i as int));
        assert(b@ =~= b@.take(i as int));
        KeyOrder::Equal
    } else if i == la {
        assert(a@ != b@) by {
            assert(a@.len() != b@.len());
        }
        KeyOrder::Less
    } else {
        assert(a@ != b@) by {
            assert(a@.len() != b@.len());
        }
        KeyOrder::Greater
    }
}

/// Whether two strings hold the same characters.
pub fn same_key(a: &str, b: &str) -> (r: bool)
    ensures
        r == (a@ == b@),
{
    compare_keys(a, b) == KeyOrder::Equal
}

/// Keys strictly increase along the list.
pub open spec fn keys_sorted<V>(s: Seq<(String, V)>) -> bool {
    forall|i: int, j: int| 0 <= i < j < s.len() ==> key_lt(#[trigger] s[i].0@, #[trigger] s[j].0@)
}

/// The list holds an entry with key `k`.
pub open spec fn has_key<V>(s: Seq<(String, V)>, k: Seq<char>) -> bool {
    exists|i: int| 0 <= i < s.len() && #[trigger] s[i].0@ == k
}

/// The position of the entry with key `k`.
pub open spec fn key_index<V>(s: Seq<(String, V)>, k: Seq<char>) -> int {
    choose|i: int| 0 <= i < s.len() && #[trigger] s[i].0@ == k
}

/// The abstract map that an association list stands for.
pub open spec fn assoc_map<V>(s: Seq<(String, V)>) -> Map<Seq<char>, V> {
    Map::new(|k: Seq<char>| has_key(s, k), |k: Seq<char>| s[key_index(s, k)].1)
}

/// No two entries share a key.
pub open spec fn keys_unique<V>(s: Seq<(String, V)>) -> bool {
    forall|i: int, j: int| 0 <= i < s.len() && 0 <= j < s.len() && i != j ==> #[trigger] s[i].0@ != #[trigger] s[j].0@
}

/// The value under key `k`, if any.
pub open spec fn lookup<V>(s: Seq<(String, V)>, k: Seq<char>) -> Option<V> {
    if has_key(s, k) {
        Some(assoc_map(s)[k])
    } else {
        None
    }
}

/// Sorted keys are distinct keys.
pub proof fn lemma_sorted_unique<V>(s: Seq<(String, V)>)
    requires
        keys_sorted(s),
    ensures
        keys_unique(s),
{
    assert forall|i: int, j: int| 0 <= i < s.len() && 0 <= j < s.len() && i != j implies #[trigger] s[i].0@
        != #[trigger] s[j].0@ by {
        lemma_sorted_distinct(s, i, j);
    }
}

/// In a list with distinct keys an entry is found at the one position that
/// holds its key.
pub proof fn lemma_unique_lookup<V>(s: Seq<(String, V)>, i: int)
    requires
        keys_unique(s),
        0 <= i < s.len(),
    ensures
        has_key(s, s[i].0@),
        key_index(s, s[i].0@) == i,
        assoc_map(s).dom().contains(s[i].0@),
        assoc_map(s)[s[i].0@] == s[i].1,
        lookup(s, s[i].0@) == Some(s[i].1),
{
    assert(has_key(s, s[i].0@));
}

/// Replacing the value at one position of a list with distinct keys changes
/// the value under that key only.
pub proof fn lemma_unique_update<V>(s: Seq<(String, V)>, i: int, v: V)
    requires
        keys_unique(s),
        0 <= i < s.len(),
    ensures
        keys_unique(s.update(i, (s[i].0, v))),
        forall|key: Seq<char>| #[trigger] lookup(s.update(i, (s[i].0, v)), key) == if key == s[i].0@ {
            Some(v)
        } else {
            lookup(s, key)
        },
{
    let s1 = s.update(i, (s[i].0, v));
    assert forall|a: int, b: int| 0 <= a < s1.len() && 0 <= b < s1.len() && a != b implies #[trigger] s1[a].0@
        != #[trigger] s1[b].0@ by {
        assert(s1[a].0 == s[a].0 && s1[b].0 == s[b].0);
    }
    assert forall|key: Seq<char>| #[trigger] lookup(s1, key) == if key == s[i].0@ {
        Some(v)
    } else {
        lookup(s, key)
    } by {
        if has_key(s1, key) {
            let j = choose|j: int| 0 <= j < s1.len() && #[trigger] s1[j].0@ == key;
            lemma_unique_lookup(s1, j);
            lemma_unique_lookup(s, j);
        } else {
            assert(s1[i].0@ == s[i].0@);
            if has_key(s, key) {
                let j = choose|j: int| 0 <= j < s.len() && #[trigger] s[j].0@ == key;
                assert(s1[j].0@ == key);
            }
        }
    }
}

/// Finds the entry with key `k` of a list with distinct keys, first adding
/// `(k, default)` as its last entry where there is none; returns its position.
pub fn ensure_key_unique<V>(s: &mut Vec<(String, V)>, k: &str, default: V) -> (i: usize)
    requires
        keys_unique(old(s)@),
    ensures
        keys_unique(final(s)@),
        i < final(s)@.len(),
        final(s)@[i as int].0@ == k@,
        has_key(old(s)@, k@) ==> final(s)@ == old(s)@,
        !has_key(old(s)@, k@) ==> final(s)@[i as int].1 == default,
        forall|key: Seq<char>| key != k@ ==> #[trigger] lookup(final(s)@, key) == lookup(old(s)@, key),
{
    match find_key(s, k) {
        Some(i) => i,
        None => {
            assoc_set(s, k, default);
            let j = find_key(s, k);
            match j {
                Some(j) => {
                    proof {
                        lemma_unique_lookup(s@, j as int);
                    }
                    j
                },
                None => {
                    proof {
                        assert(lookup(s@, k@) == Some(default));
                    }
                    0
                },
            }
        },
    }
}

/// Appending an entry with a new key adds that key only.
pub proof fn lemma_lookup_push<V>(s: Seq<(String, V)>, e: (String, V))
    requires
        keys_unique(s),
        !has_key(s, e.0@),
    ensures
        keys_unique(s.push(e)),
        forall|x: Seq<char>| #[trigger] lookup(s.push(e), x) == if x == e.0@ {
            Some(e.1)
        } else {
            lookup(s, x)
        },
{
    let t = s.push(e);
    let n = s.len() as int;
    assert forall|a: int, b: int| 0 <= a < t.len() && 0 <= b < t.len() && a != b implies #[trigger] t[a].0@
        != #[trigger] t[b].0@ by {
        if a < n && b < n {
            assert(t[a] == s[a] && t[b] == s[b]);
        } else if a < n {
            assert(t[a] == s[a]);
        } else if b < n {
            assert(t[b] == s[b]);
        }
    }
    assert forall|x: Seq<char>| #[trigger] lookup(t, x) == if x == e.0@ {
        Some(e.1)
    } else {
        lookup(s, x)
    } by {
        if has_key(t, x) {
            let j = choose|j: int| 0 <= j < t.len() && #[trigger] t[j].0@ == x;
            lemma_unique_lookup(t, j);
            if j < n {
                assert(t[j] == s[j]);
                lemma_unique_lookup(s, j);
            }
        } else {
            assert(t[n].0@ == e.0@);
            if has_key(s, x) {
                let j = choose|j: int| 0 <= j < s.len() && #[trigger] s[j].0@ == x;
                assert(t[j] == s[j]);
            }
        }
    }
}

/// Sets the value under key `k` of a list with distinct keys: in place where
/// the key is present, else as a new last entry.
pub fn assoc_set<V>(s: &mut Vec<(String, V)>, k: &str, v: V)
    requires
        keys_unique(old(s)@),
    ensures
        keys_unique(final(s)@),
        forall|key: Seq<char>| #[trigger] lookup(final(s)@, key) == if key == k@ {
            Some(v)
        } else {
            lookup(old(s)@, key)
        },
{
    let ghost s0 = s@;
    match find_key(s, k) {
        Some(i) => {
            let slot = value_mut(s, i);
            *slot = v;
            proof {
                let s1 = s@;
                assert(s1 == s0.update(i as int, (s0[i as int].0, v)));
                lemma_unique_update(s0, i as int, v);
            }
        },
        None => {
            let key = String::from_str(k);
            s.push((key, v));
            proof {
                lemma_lookup_push(s0, (key, v));
            }
        },
    }
}

/// In a sorted list an entry is found at the one position that holds its key.
pub proof fn lemma_sorted_lookup<V>(s: Seq<(String, V)>, i: int)
    requires
        keys_sorted(s),
        0 <= i < s.len(),
    ensures
        has_key(s, s[i].0@),
        key_index(s, s[i].0@) == i,
        assoc_map(s).dom().contains(s[i].0@),
        assoc_map(s)[s[i].0@] == s[i].1,
{
    let k = s[i].0@;
    assert(has_key(s, k));
    let j = key_index(s, k);
    if j != i {
        lemma_key_lt_irreflexive(k);
        if j < i {
            assert(key_lt(s[j].0@, s[i].0@));
        } else {
            assert(key_lt(s[i].0@, s[j].0@));
        }
    }
}

/// Keys of a sorted list are distinct.
pub proof fn lemma_sorted_distinct<V>(s: Seq<(String, V)>, i: int, j: int)
    requires
        keys_sorted(s),
        0 <= i < s.len(),
        0 <= j < s.len(),
        i != j,
    ensures
        s[i].0@ != s[j].0@,
{
    lemma_key_lt_irreflexive(s[i].0@);
    if i < j {
        assert(key_lt(s[i].0@, s[j].0@));
    } else {
        assert(key_lt(s[j].0@, s[i].0@));
    }
}

/// Looks a key up; `None` exactly when no entry has it.
pub fn find_key<V>(s: &Vec<(String, V)>, k: &str) -> (r: Option<usize>)
    ensures
        match r {
            Some(i) => i < s@.len() && s@[i as int].0@ == k@,
            None => !has_key(s@, k@),
        },
{
    let n = s.len();
    let mut i: usize = 0;
    while i < n
        invariant
            n == s@.len(),
            i <= n,
            forall|j: int| 0 <= j < i ==> #[trigger] s@[j].0@ != k@,
        decreases n - i,
    {
        if same_key(s[i].0.as_str(), k) {
            return Some(i);
        }
        i = i + 1;
    }
    None
}

/// Inserts an entry with a new key at the place that keeps the keys sorted,
/// and returns that place.
pub fn insert_new_sorted<V>(s: &mut Vec<(String, V)>, k: String, v: V) -> (p: usize)
    requires
        keys_sorted(old(s)@),
        !has_key(old(s)@, k@),
    ensures
        p <= old(s)@.len(),
        final(s)@ == old(s)@.insert(p as int, (k, v)),
        keys_sorted(final(s)@),
        assoc_map(final(s)@) == assoc_map(old(s)@).insert(k@, v),
{
    let n = s.len();
    let mut p: usize = 0;
    while p < n
        invariant
            n == s@.len(),
            p <= n,
            !has_key(s@, k@),
            forall|j: int| 0 <= j < p ==> key_lt(#[trigger] s@[j].0@, k@),
        ensures
            p <= n,
            p < n ==> key_lt(k@, s@[p as int].0@),
            forall|j: int| 0 <= j < p ==> key_lt(#[trigger] s@[j].0@, k@),
        decreases n - p,
    {
        let o = compare_keys(k.as_str(), s[p].0.as_str());
        if o == KeyOrder::Less {
            break;
        }
        proof {
            assert(s@[p as int].0@ != k@);
            lemma_key_lt_total(s@[p as int].0@, k@);
        }
        p = p + 1;
    }
    // Every key from `p` on comes after `k`.
    proof {
        assert forall|j: int| p <= j < n implies key_lt(k@, #[trigger] s@[j].0@) by {
            if j > p {
                assert(key_lt(s@[p as int].0@, s@[j].0@));
                lemma_key_lt_transitive(k@, s@[p as int].0@, s@[j].0@);
            }
        }
    }
    let ghost old_s = s@;
    s.insert(p, (k, v));
    proof {
        let ns = s@;
        assert forall|i: int, j: int| 0 <= i < j < ns.len() implies key_lt(
            #[trigger] ns[i].0@,
            #[trigger] ns[j].0@,
        ) by {
            if j < p {
                assert(ns[i] == old_s[i] && ns[j] == old_s[j]);
            } else if j == p {
                assert(ns[i] == old_s[i]);
            } else if i < p {
                assert(ns[i] == old_s[i] && ns[j] == old_s[j - 1]);
                assert(key_lt(old_s[i].0@, k@));
                lemma_key_lt_transitive(old_s[i].0@, k@, old_s[j - 1].0@);
            } else if i == p {
                assert(ns[j] == old_s[j - 1]);
            } else {
                assert(ns[i] == old_s[i - 1] && ns[j] == old_s[j - 1]);
            }
        }
        let m1 = assoc_map(ns);
        let m2 = assoc_map(old_s).insert(k@, v);
        assert forall|key: Seq<char>| #[trigger] m1.dom().contains(key) == m2.dom().contains(key)
            by {
            if has_key(ns, key) {
                let i = choose|i: int| 0 <= i < ns.len() && #[trigger] ns[i].0@ == key;
                if i < p {
                    assert(old_s[i].0@ == key);
                } else if i > p {
                    assert(old_s[i - 1].0@ == key);
                }
            }
            if has_key(old_s, key) {
                let i = choose|i: int| 0 <= i < old_s.len() && #[trigger] old_s[i].0@ == key;
                if i < p {
                    assert(ns[i].0@ == key);
                } else {
                    assert(ns[i + 1].0@ == key);
                }
            }
            if key == k@ {
                assert(ns[p as int].0@ == key);
            }
        }
        assert forall|key: Seq<char>| #[trigger] m1.dom().contains(key) implies m1[key]
            == m2[key] by {
            let i = choose|i: int| 0 <= i < ns.len() && #[trigger] ns[i].0@ == key;
            lemma_sorted_lookup(ns, i);
            if i < p {
                lemma_sorted_lookup(old_s, i);
            } else if i > p {
                lemma_sorted_lookup(old_s, i - 1);
            }
        }
        assert(m1 =~= m2);
    }
    p
}

/// Replacing the value at one position keeps the keys and changes the map at
/// that key only.
pub proof fn lemma_update_value<V>(s: Seq<(String, V)>, i: int, v: V)
    requires
        keys_sorted(s),
        0 <= i < s.len(),
    ensures
        keys_sorted(s.update(i, (s[i].0, v))),
        assoc_map(s.update(i, (s[i].0, v))) == assoc_map(s).insert(s[i].0@, v),
{
    let ns = s.update(i, (s[i].0, v));
    assert(ns.len() == s.len());
    assert forall|a: int, b: int| 0 <= a < b < ns.len() implies key_lt(
        #[trigger] ns[a].0@,
        #[trigger] ns[b].0@,
    ) by {
        assert(ns[a].0 == s[a].0 && ns[b].0 == s[b].0);
    }
    let m1 = assoc_map(ns);
    let m2 = assoc_map(s).insert(s[i].0@, v);
    assert forall|key: Seq<char>| #[trigger] m1.dom().contains(key) == m2.dom().contains(key) by {
        if has_key(ns, key) {
            let j = choose|j: int| 0 <= j < ns.len() && #[trigger] ns[j].0@ == key;
            assert(s[j].0@ == key);
        }
        if has_key(s, key) {
            let j = choose|j: int| 0 <= j < s.len() && #[trigger] s[j].0@ == key;
            assert(ns[j].0@ == key);
        }
        if key == s[i].0@ {
            assert(ns[i].0@ == key);
        }
    }
    assert forall|key: Seq<char>| #[trigger] m1.dom().contains(key) implies m1[key] == m2[key] by {
        let j = choose|j: int| 0 <= j < ns.len() && #[trigger] ns[j].0@ == key;
        lemma_sorted_lookup(ns, j);
        lemma_sorted_lookup(s, j);
        if j != i {
            lemma_sorted_distinct(s, i, j);
        }
    }
    assert(m1 =~= m2);
}

/// A mutable borrow of the value at one position.
pub fn value_mut<V>(s: &mut Vec<(String, V)>, i: usize) -> (r: &mut V)
    requires
        i < old(s)@.len(),
    ensures
        *r == old(s)@[i as int].1,
        final(s)@ == old(s)@.update(i as int, (old(s)@[i as int].0, *final(r))),
{
    &mut s[i].1
}

/// Finds the entry with key `k`, first adding `(k, default)` at its sorted
/// place when there is none, and returns its position.
pub fn ensure_key<V>(s: &mut Vec<(String, V)>, k: &str, default: V) -> (i: usize)
    requires
        keys_sorted(old(s)@),
    ensures
        keys_sorted(final(s)@),
        i < final(s)@.len(),
        final(s)@[i as int].0@ == k@,
        has_key(old(s)@, k@) ==> final(s)@ == old(s)@,
        !has_key(old(s)@, k@) ==> final(s)@[i as int].1 == default,
        !has_key(old(s)@, k@) ==> final(s)@ == old(s)@.insert(i as int, (final(s)@[i as int].0, default)),
        !has_key(old(s)@, k@) ==> final(s)@.len() == old(s)@.len() + 1,
        !has_key(old(s)@, k@) ==> forall|j: int| 0 <= j < i ==> #[trigger] final(s)@[j] == old(s)@[j],
        !has_key(old(s)@, k@) ==> forall|j: int|
            i < j < final(s)@.len() ==> #[trigger] final(s)@[j] == old(s)@[j - 1],
        assoc_map(final(s)@) == (if has_key(old(s)@, k@) {
            assoc_map(old(s)@)
        } else {
            assoc_map(old(s)@).insert(k@, default)
        }),
{
    match find_key(s, k) {
        Some(i) => i,
        None => {
            let key = String::from_str(k);
            let ghost s0 = s@;
            let p = insert_new_sorted(s, key, default);
            proof {
                s0.insert_ensures(p as int, (key, default));
                assert forall|j: int| p < j < s@.len() implies #[trigger] s@[j] == s0[j - 1] by {
                    assert(s@[(j - 1) + 1] == s0[j - 1]);
                }
            }
            p
        },
    }
}

/// Whether the keys of a list strictly increase.
pub fn keys_in_order<V>(s: &Vec<(String, V)>) -> (r: bool)
    ensures
        r == keys_sorted(s@),
{
    let n = s.len();
    if n == 0 {
        return true;
    }
    let mut i: usize = 1;
    while i < n
        invariant
            n == s@.len(),
            1 <= i <= n,
            keys_sorted(s@.take(i as int)),
        decreases n - i,
    {
        if compare_keys(s[i - 1].0.as_str(), s[i].0.as_str()) != KeyOrder::Less {
            assert(!keys_sorted(s@)) by {
                if keys_sorted(s@) {
                    assert(key_lt(s@[i - 1].0@, s@[i as int].0@));
                }
            }
            return false;
        }
        proof {
            let t = s@.take(i + 1);
            assert forall|a: int, b: int| 0 <= a < b < t.len() implies key_lt(
                #[trigger] t[a].0@,
                #[trigger] t[b].0@,
            ) by {
                if b < i {
                    assert(t[a] == s@.take(i as int)[a] && t[b] == s@.take(i as int)[b]);
                } else if a < i - 1 {
                    assert(t[a] == s@.take(i as int)[a]);
                    assert(s@.take(i as int)[i - 1] == s@[i - 1]);
                    assert(key_lt(t[a].0@, s@[i - 1].0@));
                    lemma_key_lt_transitive(t[a].0@, s@[i - 1].0@, t[b].0@);
                }
            }
        }
        i = i + 1;
    }
    assert(s@.take(n as int) =~= s@);
    true
}

/// Whether the keys of a list are distinct.
pub fn keys_distinct<V>(s: &Vec<(String, V)>) -> (r: bool)
    ensures
        r == keys_unique(s@),
{
    let n = s.len();
    let mut i: usize = 0;
    while i < n
        invariant
            n == s@.len(),
            i <= n,
            forall|a: int, b: int| 0 <= a < i && 0 <= b < n && a != b ==> #[trigger] s@[a].0@ != #[trigger] s@[b].0@,
        decreases n - i,
    {
        let mut j: usize = 0;
        while j < n
            invariant
                n == s@.len(),
                i < n,
                j <= n,
                forall|a: int, b: int| 0 <= a < i && 0 <= b < n && a != b ==> #[trigger] s@[a].0@ != #[trigger] s@[b].0@,
                forall|b: int| 0 <= b < j && b != i ==> #[trigger] s@[b].0@ != s@[i as int].0@,
            decreases n - j,
        {
            if j != i && same_key(s[i].0.as_str(), s[j].0.as_str()) {
                return false;
            }
            j = j + 1;
        }
        i = i + 1;
    }
    true
}

/// The characters of each string of a list.
pub open spec fn strs(v: Seq<String>) -> Seq<Seq<char>> {
    v.map_values(|x: String| x@)
}

/// Whether a list of strings holds one with the characters of `x`.
pub fn contains_str(v: &Vec<String>, x: &str) -> (r: bool)
    ensures
        r == strs(v@).contains(x@),
{
    let n = v.len();
    let mut i: usize = 0;
    while i < n
        invariant
            n == v@.len(),
            i <= n,
            forall|j: int| 0 <= j < i ==> #[trigger] v@[j]@ != x@,
        decreases n - i,
    {
        if same_key(v[i].as_str(), x) {
            assert(strs(v@)[i as int] == x@);
            return true;
        }
        i = i + 1;
    }
    assert(!strs(v@).contains(x@)) by {
        if strs(v@).contains(x@) {
            let j = choose|j: int| 0 <= j < strs(v@).len() && strs(v@)[j] == x@;
            assert(v@[j]@ == x@);
        }
    }
    false
}

} // verus!
