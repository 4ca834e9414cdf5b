//! A JSON value as the library holds it: the untyped bags that evidence and
//! bundles carry, and the documents the digests are computed over.
//!
//! Numbers keep the form they were read in. An integer is an integer; a
//! number written with a decimal point, an exponent or a signed zero is a
//! double and is kept as the text it was read from, never as a float.

use vstd::prelude::*;
use crate::text::string_of;

verus! {

/// A JSON number, classified by how it was written.
#[derive(Clone, PartialEq, Eq, Debug)]
pub enum JsonNumber {
    /// A non-negative integer.
    PosInt(u64),
    /// A negative integer.
    NegInt(i64),
    /// A number read as a double, kept as its text.
    Double(String),
}

/// A JSON value. An object is its members in order, each key once.
#[derive(PartialEq, Eq, Debug)]
pub enum Json {
    /// `null`.
    Null,
    /// `true` or `false`.
    Bool(bool),
    /// A number.
    Number(JsonNumber),
    /// A string.
    String(String),
    /// An array.
    Array(Vec<Json>),
    /// An object.
    Object(Vec<(String, Json)>),
}

/// A JSON value as mathematics sees it: numbers as integers (or, for a
/// double, the text it was read from), strings as characters, arrays and
/// objects as sequences.
pub enum JsonValue {
    /// `null`.
    Null,
    /// `true` or `false`.
    Bool(bool),
    /// An integer.
    Int(int),
    /// A number read as a double, as its text.
    Double(Seq<char>),
    /// A string.
    Str(Seq<char>),
    /// An array.
    Arr(Seq<JsonValue>),
    /// An object's members, in order.
    Obj(Seq<(Seq<char>, JsonValue)>),
}

/// The value a JSON tree denotes.
pub open spec fn json_view(j: Json) -> JsonValue
    decreases j,
{
    match j {
        Json::Null => JsonValue::Null,
        Json::Bool(b) => JsonValue::Bool(b),
        Json::Number(JsonNumber::PosInt(u)) => JsonValue::Int(u as int),
        Json::Number(JsonNumber::NegInt(i)) => JsonValue::Int(i as int),
        Json::Number(JsonNumber::Double(t)) => JsonValue::Double(t@),
        Json::String(s) => JsonValue::Str(s@),
        Json::Array(items) => {
            proof {
                broadcast use vstd::std_specs::vec::axiom_vec_decreases_to_view;
                assert(decreases_to!(j => j->Array_0));
            }
            JsonValue::Arr(json_seq_view(items@))
        },
        Json::Object(members) => {
            proof {
                broadcast use vstd::std_specs::vec::axiom_vec_decreases_to_view;
                assert(decreases_to!(j => j->Object_0));
            }
            JsonValue::Obj(json_members_view(members@))
        },
    }
}

/// The values a sequence of JSON trees denotes.
pub open spec fn json_seq_view(s: Seq<Json>) -> Seq<JsonValue>
    decreases s,
{
    if s.len() == 0 {
        Seq::empty()
    } else {
        json_seq_view(s.drop_last()).push(json_view(s.last()))
    }
}

/// The members a sequence of JSON object members denotes.
pub open spec fn json_members_view(s: Seq<(String, Json)>) -> Seq<(Seq<char>, JsonValue)>
    decreases s,
{
    if s.len() == 0 {
        Seq::empty()
    } else {
        proof {
            assert(decreases_to!(s => s.last()));
            assert(decreases_to!(s.last() => s.last().1));
        }
        json_members_view(s.drop_last()).push((s.last().0@, json_view(s.last().1)))
    }
}

/// The view of a sequence of trees has one value per tree.
pub proof fn lemma_json_seq_view_len(s: Seq<Json>)
    ensures
        json_seq_view(s).len() == s.len(),
    decreases s.len(),
{
    if s.len() > 0 {
        lemma_json_seq_view_len(s.drop_last());
    }
}

/// The view of a sequence of trees is the view of each tree, in order.
pub proof fn lemma_json_seq_view_index(s: Seq<Json>)
    ensures
        json_seq_view(s).len() == s.len(),
        forall|i: int| 0 <= i < s.len() ==> #[trigger] json_seq_view(s)[i] == json_view(s[i]),
    decreases s.len(),
{
    if s.len() > 0 {
        lemma_json_seq_view_index(s.drop_last());
    }
}

/// The view of a sequence of members is the view of each member, in order.
pub proof fn lemma_json_members_view_index(s: Seq<(String, Json)>)
    ensures
        json_members_view(s).len() == s.len(),
        forall|i: int|
            0 <= i < s.len() ==> #[trigger] json_members_view(s)[i] == (s[i].0@, json_view(s[i].1)),
    decreases s.len(),
{
    if s.len() > 0 {
        lemma_json_members_view_index(s.drop_last());
    }
}

impl Clone for Json {
    fn clone(&self) -> (r: Json)
        ensures
            json_view(r) == json_view(*self),
    {
        clone_json(self)
    }
}

/// A deep copy of `j`.
pub fn clone_json(j: &Json) -> (r: Json)
    ensures
        json_view(r) == json_view(*j),
    decreases j,
{
    match j {
        Json::Null => Json::Null,
        Json::Bool(b) => Json::Bool(*b),
        Json::Number(n) => match n {
            JsonNumber::PosInt(u) => Json::Number(JsonNumber::PosInt(*u)),
            JsonNumber::NegInt(i) => Json::Number(JsonNumber::NegInt(*i)),
            JsonNumber::Double(t) => Json::Number(JsonNumber::Double(string_of(t.as_str()))),
        },
        Json::String(s) => Json::String(string_of(s.as_str())),
        Json::Array(items) => {
            let mut out: Vec<Json> = Vec::new();
            let mut i: usize = 0;
            while i < items.len()
                invariant
                    i <= items@.len(),
                    *j == Json::Array(*items),
                    json_seq_view(out@) == json_seq_view(items@.take(i as int)),
                decreases items@.len() - i,
            {
                proof {
                    broadcast use vstd::std_specs::vec::axiom_vec_index_decreases;
                    assert(decreases_to!(*j => (*j)->Array_0));
                    assert(decreases_to!(*items => items[i as int]));
                }
                let c = clone_json(&items[i]);
                let ghost before = out@;
                out.push(c);
                proof {
                    assert(out@.drop_last() =~= before);
                    assert(items@.take(i as int + 1).drop_last() =~= items@.take(i as int));
                }
                i = i + 1;
            }
            proof {
                assert(items@.take(i as int) =~= items@);
            }
            Json::Array(out)
        },
        Json::Object(members) => {
            let mut out: Vec<(String, Json)> = Vec::new();
            let mut i: usize = 0;
            while i < members.len()
                invariant
                    i <= members@.len(),
                    *j == Json::Object(*members),
                    json_members_view(out@) == json_members_view(members@.take(i as int)),
                decreases members@.len() - i,
            {
                proof {
                    broadcast use vstd::std_specs::vec::axiom_vec_index_decreases;
                    assert(decreases_to!(*j => (*j)->Object_0));
                    assert(decreases_to!(*members => members[i as int]));
                    assert(decreases_to!(members[i as int] => members[i as int].1));
                }
                let k = string_of(members[i].0.as_str());
                let v = clone_json(&members[i].1);
                let ghost before = out@;
                out.push((k, v));
                proof {
                    assert(out@.drop_last() =~= before);
                    assert(members@.take(i as int + 1).drop_last() =~= members@.take(i as int));
                }
                i = i + 1;
            }
            proof {
                assert(members@.take(i as int) =~= members@);
            }
            Json::Object(out)
        },
    }
}

} // verus!

