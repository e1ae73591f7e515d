//! Character-level text helpers: ASCII classes, slugs, case-insensitive
//! comparison and substring search.
use vstd::prelude::*;
use vstd::string::*;

verus! {

/// An ASCII digit or letter.
pub open spec fn is_alnum(c: char) -> bool {
    ||| 48 <= (c as int) <= 57
    ||| 65 <= (c as int) <= 90
    ||| 97 <= (c as int) <= 122
}

/// An ASCII upper-case letter.
pub open spec fn is_upper(c: char) -> bool {
    65 <= (c as int) <= 90
}

/// The ASCII lower-case form of a character; other characters are kept.
pub open spec fn ascii_lower(c: char) -> char {
    if is_upper(c) {
        ((c as int) + 32) as char
    } else {
        c
    }
}

/// Each character of a sequence in ASCII lower case.
pub open spec fn ascii_lower_seq(s: Seq<char>) -> Seq<char> {
    s.map_values(|c: char| ascii_lower(c))
}

/// The text of an optional string.
pub open spec fn opt_text(o: Option<String>) -> Option<Seq<char>> {
    match o {
        Some(x) => Some(x@),
        None => None,
    }
}

/// `String::push`: the string afterwards is the string before with `c`
/// appended.
#[verifier::external_body]
pub(crate) fn push_char(s: &mut String, c: char)
    ensures
        final(s)@ == old(s)@.push(c),
{
    s.push(c)
}

/// Whether a character is an ASCII digit or letter.
pub fn char_is_alnum(c: char) -> (r: bool)
    ensures
        r == is_alnum(c),
{
    let v = c as u32;
    (48 <= v && v <= 57) || (65 <= v && v <= 90) || (97 <= v && v <= 122)
}

/// The ASCII lower-case form of a character.
pub fn char_ascii_lower(c: char) -> (r: char)
    ensures
        r == ascii_lower(c),
{
    let v = c as u32;
    if 65 <= v && v <= 90 {
        let b: u8 = (v + 32) as u8;
        b as char
    } else {
        c
    }
}

/// Two texts with a character between them.
pub open spec fn joined_with(a: Seq<char>, sep: char, b: Seq<char>) -> Seq<char> {
    a + seq![sep] + b
}

/// `a`, then `sep`, then `b`.
pub fn join_with(a: &str, sep: char, b: &str) -> (r: String)
    ensures
        r@ == joined_with(a@, sep, b@),
{
    let mut out = String::from_str(a);
    push_char(&mut out, sep);
    out.append(b);
    assert(out@ =~= a@ + seq![sep] + b@);
    out
}

/// The decimal digit character of a value below ten.
pub open spec fn digit_char(d: int) -> char {
    (48 + d) as char
}

/// The decimal text of a natural number, without leading zeros.
pub open spec fn decimal(n: nat) -> Seq<char>
    decreases n,
{
    if n < 10 {
        seq![digit_char(n as int)]
    } else {
        decimal(n / 10).push(digit_char((n % 10) as int))
    }
}

/// The decimal text of a number.
pub fn u64_to_decimal(n: u64) -> (r: String)
    ensures
        r@ == decimal(n as nat),
    decreases n,
{
    let d: u8 = (n % 10) as u8;
    let c = (48u8 + d) as char;
    if n < 10 {
        let mut out = String::new();
        push_char(&mut out, c);
        assert(out@ =~= seq![digit_char(n as int)]);
        out
    } else {
        let mut out = u64_to_decimal(n / 10);
        push_char(&mut out, c);
        out
    }
}

/// The two texts are equal once ASCII letters are put in lower case.
pub open spec fn eq_ignore_ascii_case_spec(a: Seq<char>, b: Seq<char>) -> bool {
    ascii_lower_seq(a) == ascii_lower_seq(b)
}

/// Whether two texts are equal once ASCII letters are put in lower case.
pub fn eq_ignore_ascii_case(a: &str, b: &str) -> (r: bool)
    ensures
        r == eq_ignore_ascii_case_spec(a@, b@),
{
    let la = a.unicode_len();
    let lb = b.unicode_len();
    if la != lb {
        assert(ascii_lower_seq(a@).len() != ascii_lower_seq(b@).len());
        return false;
    }
    let mut i: usize = 0;
    while i < la
        invariant
            la == a@.len(),
            lb == b@.len(),
            la == lb,
            i <= la,
            forall|j: int| 0 <= j < i ==> ascii_lower(#[trigger] a@[j]) == ascii_lower(b@[j]),
        decreases la - i,
    {
        let ca = char_ascii_lower(a.get_char(i));
        let cb = char_ascii_lower(b.get_char(i));
        if ca != cb {
            assert(ascii_lower_seq(a@)[i as int] != ascii_lower_seq(b@)[i as int]);
            return false;
        }
        i = i + 1;
    }
    assert(ascii_lower_seq(a@) =~= ascii_lower_seq(b@));
    true
}

/// `q` occurs in `t` as a run of consecutive characters.
pub open spec fn is_infix(q: Seq<char>, t: Seq<char>) -> bool {
    exists|i: int| 0 <= i && i + q.len() <= t.len() && #[trigger] t.subrange(i, i + q.len()) == q
}

/// Whether `query` occurs in `text`.
pub fn contains_text(text: &str, query: &str) -> (r: bool)
    ensures
        r == is_infix(query@, text@),
{
    let n = text.unicode_len();
    let m = query.unicode_len();
    if m > n {
        return false;
    }
    let mut i: usize = 0;
    while i <= n - m
        invariant
            n == text@.len(),
            m == query@.len(),
            m <= n,
            i <= n - m,
            forall|k: int| 0 <= k < i ==> #[trigger] text@.subrange(k, k + m) != query@,
        decreases n - m - i,
    {
        let mut j: usize = 0;
        let mut same = true;
        while j < m
            invariant
                n == text@.len(),
                m == query@.len(),
                i + m <= n,
                j <= m,
                same ==> forall|k: int| 0 <= k < j ==> text@[i + k] == query@[k],
                !same ==> text@.subrange(i as int, i + m) != query@,
            decreases m - j,
        {
            if same && text.get_char(i + j) != query.get_char(j) {
                same = false;
                assert(text@.subrange(i as int, i + m)[j as int] != query@[j as int]);
            }
            j = j + 1;
        }
        if same {
            assert(text@.subrange(i as int, i + m) =~= query@);
            return true;
        }
        if i == n - m {
            assert(forall|k: int| 0 <= k <= i ==> #[trigger] text@.subrange(k, k + m) != query@);
            return false;
        }
        i = i + 1;
    }
    false
}

/// `s` with `x` appended unless it holds `x` already.
pub open spec fn with_unique(s: Seq<Seq<char>>, x: Seq<char>) -> Seq<Seq<char>> {
    if s.contains(x) {
        s
    } else {
        s.push(x)
    }
}

/// No element occurs twice.
pub open spec fn distinct(s: Seq<Seq<char>>) -> bool {
    forall|i: int, j: int| 0 <= i < j < s.len() ==> #[trigger] s[i] != #[trigger] s[j]
}

pub proof fn lemma_with_unique_distinct(s: Seq<Seq<char>>, x: Seq<char>)
    requires
        distinct(s),
    ensures
        distinct(with_unique(s, x)),
        with_unique(s, x).contains(x),
        forall|y: Seq<char>| #[trigger] with_unique(s, x).contains(y) <==> (s.contains(y) || y == x),
{
    if !s.contains(x) {
        let t = s.push(x);
        assert forall|i: int, j: int| 0 <= i < j < t.len() implies #[trigger] t[i] != #[trigger] t[j] by {
            if j == s.len() {
                assert(t[i] == s[i]);
            }
        }
        assert(t[s.len() as int] == x);
        assert forall|y: Seq<char>| #[trigger] t.contains(y) <==> (s.contains(y) || y == x) by {
            if t.contains(y) {
                let k = choose|k: int| 0 <= k < t.len() && t[k] == y;
                if k < s.len() {
                    assert(s[k] == y);
                }
            }
            if s.contains(y) {
                let k = choose|k: int| 0 <= k < s.len() && s[k] == y;
                assert(t[k] == y);
            }
        }
    }
}

/// An ASCII letter, of either case.
pub open spec fn is_ascii_letter(c: char) -> bool {
    65 <= (c as int) <= 90 || 97 <= (c as int) <= 122
}

/// Two texts are equal ignoring ASCII case exactly when they have the same
/// length and agree, position by position, once each character is put in
/// ASCII lower case.
pub proof fn law_eq_ignore_case_pointwise(a: Seq<char>, b: Seq<char>)
    ensures
        eq_ignore_ascii_case_spec(a, b) <==> (a.len() == b.len() && forall|i: int|
            0 <= i < a.len() ==> ascii_lower(#[trigger] a[i]) == ascii_lower(b[i])),
{
    if eq_ignore_ascii_case_spec(a, b) {
        assert(ascii_lower_seq(a).len() == a.len() && ascii_lower_seq(b).len() == b.len());
        assert forall|i: int| 0 <= i < a.len() implies ascii_lower(#[trigger] a[i]) == ascii_lower(b[i]) by {
            assert(ascii_lower_seq(a)[i] == ascii_lower_seq(b)[i]);
        }
    }
    if a.len() == b.len() && forall|i: int| 0 <= i < a.len() ==> ascii_lower(#[trigger] a[i]) == ascii_lower(b[i]) {
        assert(ascii_lower_seq(a) =~= ascii_lower_seq(b));
    }
}

/// Ignoring ASCII case lets only letters differ: where two texts are equal
/// ignoring case, a character that is not an ASCII letter (a digit, a space,
/// a sign) stands unchanged at the same position of the other text.
pub proof fn law_eq_ignore_case_keeps_non_letters(a: Seq<char>, b: Seq<char>, i: int)
    requires
        eq_ignore_ascii_case_spec(a, b),
        0 <= i < a.len(),
        !is_ascii_letter(a[i]),
    ensures
        b.len() == a.len(),
        b[i] == a[i],
{
    law_eq_ignore_case_pointwise(a, b);
    assert(ascii_lower(a[i]) == ascii_lower(b[i]));
}

/// Texts that differ only where one has an upper-case ASCII letter and the
/// other the same letter in lower case are equal ignoring case.
pub proof fn law_eq_ignore_case_matches_case_variants(a: Seq<char>, b: Seq<char>)
    requires
        a.len() == b.len(),
        forall|i: int| 0 <= i < a.len() ==> #[trigger] a[i] == b[i] || (65 <= (a[i] as int) <= 90
            && (b[i] as int) == (a[i] as int) + 32),
    ensures
        eq_ignore_ascii_case_spec(a, b),
{
    assert forall|i: int| 0 <= i < a.len() implies ascii_lower(#[trigger] a[i]) == ascii_lower(b[i]) by {
        if a[i] != b[i] {
            assert(is_upper(a[i]));
            assert(!is_upper(b[i]));
            assert(ascii_lower(a[i]) == ((a[i] as int) + 32) as char);
            assert((b[i] as int) == (a[i] as int) + 32);
        }
    }
    law_eq_ignore_case_pointwise(a, b);
}

/// A text equals itself ignoring case, and the relation goes both ways.
pub proof fn law_eq_ignore_case_reflexive_symmetric(a: Seq<char>, b: Seq<char>)
    ensures
        eq_ignore_ascii_case_spec(a, a),
        eq_ignore_ascii_case_spec(a, b) == eq_ignore_ascii_case_spec(b, a),
{
}

/// A query occurs in any text made of some text, the query and some more
/// text, wherever it starts: at the beginning, after a space or inside a
/// word.
pub proof fn law_infix_anywhere(before: Seq<char>, q: Seq<char>, after: Seq<char>)
    ensures
        is_infix(q, before + q + after),
{
    let t = before + q + after;
    assert(t.subrange(before.len() as int, (before.len() + q.len()) as int) =~= q);
}

/// A query occurs in a text only where the text holds its characters in a
/// row: the text is then some text, the query and some more text.
pub proof fn law_infix_only_where_found(q: Seq<char>, t: Seq<char>)
    requires
        is_infix(q, t),
    ensures
        exists|before: Seq<char>, after: Seq<char>| t == before + q + after,
{
    let i = choose|i: int| 0 <= i && i + q.len() <= t.len() && #[trigger] t.subrange(i, i + q.len()) == q;
    let before = t.subrange(0, i);
    let after = t.subrange(i + q.len(), t.len() as int);
    assert(t =~= before + q + after);
}

} // verus!
