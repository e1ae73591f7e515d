//! A JSON document as plain values, and its abstract view.
use vstd::prelude::*;

use crate::strmap::{keys_unique, lookup};

verus! {

/// A JSON number: a non-negative integer, a negative integer, or any other
/// number, kept as its text.
pub enum JsonNumber {
    PosInt(u64),
    NegInt(i64),
    Float(String),
}

/// A JSON value.  An object lists its members in order; its keys are distinct
/// where it is read from a document.
pub enum Json {
    Null,
    Bool(bool),
    Number(JsonNumber),
    Str(String),
    Array(Vec<Json>),
    Object(Vec<(String, Json)>),
}

/// The abstract value of a JSON number.
pub enum NumberView {
    PosInt(u64),
    NegInt(i64),
    Float(Seq<char>),
}

/// The abstract value of a JSON value.
pub enum JsonView {
    Null,
    Bool(bool),
    Number(NumberView),
    Str(Seq<char>),
    Array(Seq<JsonView>),
    Object(Seq<(Seq<char>, JsonView)>),
}

pub open spec fn number_view(n: JsonNumber) -> NumberView {
    match n {
        JsonNumber::PosInt(u) => NumberView::PosInt(u),
        JsonNumber::NegInt(i) => NumberView::NegInt(i),
        JsonNumber::Float(t) => NumberView::Float(t@),
    }
}

pub open spec fn json_view(v: Json) -> JsonView
    decreases v,
{
    match v {
        Json::Null => JsonView::Null,
        Json::Bool(b) => JsonView::Bool(b),
        Json::Number(n) => JsonView::Number(number_view(n)),
        Json::Str(s) => JsonView::Str(s@),
        Json::Array(a) => JsonView::Array(json_seq_view(a@)),
        Json::Object(o) => JsonView::Object(json_pairs_view(o@)),
    }
}

pub open spec fn json_seq_view(s: Seq<Json>) -> Seq<JsonView>
    decreases s,
{
    if s.len() == 0 {
        Seq::empty()
    } else {
        json_seq_view(s.subrange(0, s.len() - 1)).push(json_view(s[s.len() - 1]))
    }
}

pub open spec fn json_pairs_view(s: Seq<(String, Json)>) -> Seq<(Seq<char>, JsonView)>
    decreases s,
{
    if s.len() == 0 {
        Seq::empty()
    } else {
        json_pairs_view(s.subrange(0, s.len() - 1)).push(
            (s[s.len() - 1].0@, json_view(s[s.len() - 1].1)),
        )
    }
}

/// The member `k` of an object; `None` for other values.
pub open spec fn member(v: Json, k: Seq<char>) -> Option<Json> {
    match v {
        Json::Object(o) => lookup(o@, k),
        _ => None,
    }
}

/// The keys of an object are distinct; other values qualify as they are.
pub open spec fn unique_members(v: Json) -> bool {
    match v {
        Json::Object(o) => keys_unique(o@),
        _ => true,
    }
}

pub proof fn lemma_seq_view_push(s: Seq<Json>, x: Json)
    ensures
        json_seq_view(s.push(x)) == json_seq_view(s).push(json_view(x)),
{
    assert(s.push(x).subrange(0, s.len() as int) =~= s);
}

pub proof fn lemma_pairs_view_push(s: Seq<(String, Json)>, x: (String, Json))
    ensures
        json_pairs_view(s.push(x)) == json_pairs_view(s).push((x.0@, json_view(x.1))),
{
    assert(s.push(x).subrange(0, s.len() as int) =~= s);
}

/// The view of the members of an object, member by member.
pub proof fn lemma_pairs_view_index(s: Seq<(String, Json)>)
    ensures
        json_pairs_view(s).len() == s.len(),
        forall|t: int| 0 <= t < s.len() ==> #[trigger] json_pairs_view(s)[t] == (s[t].0@, json_view(s[t].1)),
    decreases s.len(),
{
    if s.len() > 0 {
        let d = s.subrange(0, s.len() - 1);
        lemma_pairs_view_index(d);
        assert forall|t: int| 0 <= t < s.len() implies #[trigger] json_pairs_view(s)[t] == (
            s[t].0@,
            json_view(s[t].1),
        ) by {
            if t < s.len() - 1 {
                assert(d[t] == s[t]);
            }
        }
    }
}

/// A copy of a JSON value.
pub fn clone_json(v: &Json) -> (r: Json)
    ensures
        json_view(r) == json_view(*v),
    decreases v,
{
    match v {
        Json::Null => Json::Null,
        Json::Bool(b) => Json::Bool(*b),
        Json::Number(n) => Json::Number(
            match n {
                JsonNumber::PosInt(u) => JsonNumber::PosInt(*u),
                JsonNumber::NegInt(i) => JsonNumber::NegInt(*i),
                JsonNumber::Float(t) => JsonNumber::Float(t.clone()),
            },
        ),
        Json::Str(s) => Json::Str(s.clone()),
        Json::Array(a) => Json::Array(clone_array(a)),
        Json::Object(o) => Json::Object(clone_members(o)),
    }
}

/// A copy of the elements of an array.
pub fn clone_array(a: &Vec<Json>) -> (r: Vec<Json>)
    ensures
        json_seq_view(r@) == json_seq_view(a@),
    decreases a,
{
    let mut out: Vec<Json> = Vec::new();
    let n = a.len();
    let mut i: usize = 0;
    assert(a@.take(0) =~= out@);
    while i < n
        invariant
            n == a@.len(),
            i <= n,
            json_seq_view(out@) == json_seq_view(a@.take(i as int)),
        decreases n - i,
    {
        let c = clone_json(&a[i]);
        proof {
            lemma_seq_view_push(out@, c);
            assert(a@.take(i + 1) =~= a@.take(i as int).push(a@[i as int]));
            lemma_seq_view_push(a@.take(i as int), a@[i as int]);
        }
        out.push(c);
        i = i + 1;
    }
    assert(a@.take(n as int) =~= a@);
    out
}

/// A copy of the members of an object.
pub fn clone_members(o: &Vec<(String, Json)>) -> (r: Vec<(String, Json)>)
    ensures
        json_pairs_view(r@) == json_pairs_view(o@),
        forall|i: int| 0 <= i < r@.len() ==> #[trigger] r@[i].0@ == o@[i].0@,
        r@.len() == o@.len(),
    decreases o,
{
    let mut out: Vec<(String, Json)> = Vec::new();
    let n = o.len();
    let mut i: usize = 0;
    assert(o@.take(0) =~= out@);
    while i < n
        invariant
            n == o@.len(),
            i <= n,
            out@.len() == i,
            json_pairs_view(out@) == json_pairs_view(o@.take(i as int)),
            forall|j: int| 0 <= j < i ==> #[trigger] out@[j].0@ == o@[j].0@,
        decreases n - i,
    {
        let k = o[i].0.clone();
        let c = clone_json(&o[i].1);
        proof {
            lemma_pairs_view_push(out@, (k, c));
            assert(o@.take(i + 1) =~= o@.take(i as int).push(o@[i as int]));
            lemma_pairs_view_push(o@.take(i as int), o@[i as int]);
        }
        out.push((k, c));
        i = i + 1;
    }
    assert(o@.take(n as int) =~= o@);
    out
}

/// The text of a string value; `None` for other values.
pub open spec fn as_str_view(v: Json) -> Option<Seq<char>> {
    match v {
        Json::Str(s) => Some(s@),
        _ => None,
    }
}

/// The integer of a non-negative integer value; `None` for other values.
pub open spec fn as_u64_view(v: Json) -> Option<u64> {
    match v {
        Json::Number(JsonNumber::PosInt(u)) => Some(u),
        _ => None,
    }
}

/// The integer of a non-negative integer value.
pub fn as_u64(v: &Json) -> (r: Option<u64>)
    ensures
        r == as_u64_view(*v),
{
    match v {
        Json::Number(JsonNumber::PosInt(u)) => Some(*u),
        _ => None,
    }
}

} // verus!
