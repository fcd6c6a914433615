//! JSON documents as the library reads them: the settings file, the account
//! list and the replies of the web endpoints. Text is parsed by `serde_json`
//! through the trusted `parse_json` at the end of this file.

use vstd::prelude::*;
use crate::text::{string_of, owned, chars_of};
use serde_json::Value;

verus! {

/// A JSON number in the three shapes a JSON reader distinguishes.
pub enum JsonNumber {
    /// A non-negative integer.
    PosInt(u64),
    /// A negative integer.
    NegInt(i64),
    /// Any other number, with the text it prints as.
    Float(String),
}

/// A JSON value. Object members keep their order; a parsed object has its
/// member names in ascending order, hence distinct (see `json_sorted`).
pub enum Json {
    Null,
    Bool(bool),
    Number(JsonNumber),
    Str(String),
    Array(Vec<Json>),
    Object(Vec<(String, Json)>),
}

/// The value stored under `key` among `fields` (the first such member).
pub open spec fn lookup(fields: Seq<(String, Json)>, key: Seq<char>) -> Option<Json>
    decreases fields.len(),
{
    if fields.len() == 0 {
        None
    } else if fields[0].0@ == key {
        Some(fields[0].1)
    } else {
        lookup(fields.drop_first(), key)
    }
}

/// What `value.get(key)` gives back.
pub open spec fn json_get(v: Json, key: Seq<char>) -> Option<Json> {
    match v {
        Json::Object(fields) => lookup(fields@, key),
        _ => None,
    }
}

/// What `value.as_str()` gives back.
pub open spec fn json_str(v: Option<Json>) -> Option<Seq<char>> {
    match v {
        Some(Json::Str(s)) => Some(s@),
        _ => None,
    }
}

/// What `value.as_bool()` gives back.
pub open spec fn json_bool(v: Option<Json>) -> Option<bool> {
    match v {
        Some(Json::Bool(b)) => Some(b),
        _ => None,
    }
}

/// What `value.as_i64()` gives back.
pub open spec fn json_i64(v: Option<Json>) -> Option<i64> {
    match v {
        Some(Json::Number(JsonNumber::PosInt(n))) => if n <= i64::MAX as u64 {
            Some(n as i64)
        } else {
            None
        },
        Some(Json::Number(JsonNumber::NegInt(n))) => Some(n),
        _ => None,
    }
}

/// The first element of an array value, if any.
pub open spec fn json_first(v: Option<Json>) -> Option<Json> {
    match v {
        Some(Json::Array(items)) => if items@.len() > 0 {
            Some(items@[0])
        } else {
            None
        },
        _ => None,
    }
}

/// `json_get` lifted to an optional value.
pub open spec fn json_at(v: Option<Json>, key: Seq<char>) -> Option<Json> {
    match v {
        Some(j) => json_get(j, key),
        None => None,
    }
}

fn lookup_exec<'a>(fields: &'a Vec<(String, Json)>, key: &str) -> (r: Option<&'a Json>)
    ensures
        r matches Some(j) ==> lookup(fields@, key@) == Some(*j),
        r is None ==> lookup(fields@, key@) is None,
{
    let mut i: usize = 0;
    assert(fields@.skip(0) =~= fields@);
    while i < fields.len()
        invariant
            i <= fields.len(),
            lookup(fields@, key@) == lookup(fields@.skip(i as int), key@),
        decreases fields.len() - i,
    {
        let ghost rest = fields@.skip(i as int);
        assert(rest[0] == fields@[i as int]);
        if str_eq(fields[i].0.as_str(), key) {
            return Some(&fields[i].1);
        }
        assert(rest.drop_first() =~= fields@.skip(i + 1));
        i = i + 1;
    }
    assert(fields@.skip(i as int).len() == 0);
    None
}

/// Whether two strings hold the same characters.
pub fn str_eq(a: &str, b: &str) -> (r: bool)
    ensures
        r == (a@ == b@),
{
    let av = chars_of(a);
    let bv = chars_of(b);
    if av.len() != bv.len() {
        return false;
    }
    let mut i: usize = 0;
    while i < av.len()
        invariant
            i <= av.len() == bv.len(),
            av@ == a@,
            bv@ == b@,
            forall|k: int| 0 <= k < i ==> av@[k] == bv@[k],
        decreases av.len() - i,
    {
        if av[i] != bv[i] {
            assert(a@[i as int] != b@[i as int]);
            return false;
        }
        i = i + 1;
    }
    assert(av@ =~= bv@);
    true
}

impl Json {
    /// The member stored under `key`, when this is an object.
    pub fn get(&self, key: &str) -> (r: Option<&Json>)
        ensures
            r matches Some(j) ==> json_get(*self, key@) == Some(*j),
            r is None ==> json_get(*self, key@) is None,
    {
        match self {
            Json::Object(fields) => lookup_exec(fields, key),
            _ => None,
        }
    }

    /// The text, when this is a string.
    pub fn as_str(&self) -> (r: Option<&String>)
        ensures
            r matches Some(s) ==> json_str(Some(*self)) == Some(s@),
            r is None ==> json_str(Some(*self)) is None,
    {
        match self {
            Json::Str(s) => Some(s),
            _ => None,
        }
    }

    /// The flag, when this is a boolean.
    pub fn as_bool(&self) -> (r: Option<bool>)
        ensures
            r == json_bool(Some(*self)),
    {
        match self {
            Json::Bool(b) => Some(*b),
            _ => None,
        }
    }

    /// The integer, when this is an integer that fits `i64`.
    pub fn as_i64(&self) -> (r: Option<i64>)
        ensures
            r == json_i64(Some(*self)),
    {
        match self {
            Json::Number(JsonNumber::PosInt(n)) => if *n <= i64::MAX as u64 {
                Some(*n as i64)
            } else {
                None
            },
            Json::Number(JsonNumber::NegInt(n)) => Some(*n),
            _ => None,
        }
    }

    /// The first element, when this is a non-empty array.
    pub fn first(&self) -> (r: Option<&Json>)
        ensures
            r matches Some(j) ==> json_first(Some(*self)) == Some(*j),
            r is None ==> json_first(Some(*self)) is None,
    {
        match self {
            Json::Array(items) => if items.len() > 0 {
                Some(&items[0])
            } else {
                None
            },
            _ => None,
        }
    }
}

/// `value.get(key).and_then(|v| v.as_str())`, owned.
pub fn get_str(v: &Json, key: &str) -> (r: Option<String>)
    ensures
        r matches Some(s) ==> json_str(json_get(*v, key@)) == Some(s@),
        r is None ==> json_str(json_get(*v, key@)) is None,
{
    match v.get(key) {
        Some(j) => match j.as_str() {
            Some(s) => Some(owned(s.as_str())),
            None => None,
        },
        None => None,
    }
}

// ---------------------------------------------------------------------------
// parsing
// ---------------------------------------------------------------------------

/// `a` sorts before `b` by the code points of their characters (the order
/// of their UTF-8 bytes, which is how `String`s compare).
pub open spec fn text_lt(a: Seq<char>, b: Seq<char>) -> bool
    decreases a.len(),
{
    if a.len() == 0 {
        b.len() > 0
    } else if b.len() == 0 {
        false
    } else if a[0] != b[0] {
        (a[0] as u32) < (b[0] as u32)
    } else {
        text_lt(a.drop_first(), b.drop_first())
    }
}

/// Member names in strictly ascending order.
pub open spec fn keys_ascending(fields: Seq<(String, Json)>) -> bool {
    forall|i: int, j: int| 0 <= i < j < fields.len() ==> text_lt(#[trigger] fields[i].0@, #[trigger] fields[j].0@)
}

/// No two members share a name.
pub open spec fn keys_distinct(fields: Seq<(String, Json)>) -> bool {
    forall|i: int, j: int| 0 <= i < j < fields.len() ==> #[trigger] fields[i].0@ != #[trigger] fields[j].0@
}

/// Every object in the value, at any depth, has ascending member names (as
/// `serde_json`'s map, ordered by key, hands them out).
pub open spec fn json_sorted(j: Json) -> bool
    decreases j,
{
    match j {
        Json::Array(items) => forall|i: int|
            0 <= i < items@.len() ==> json_sorted(#[trigger] items@[i]),
        Json::Object(fields) => keys_ascending(fields@) && forall|i: int|
            0 <= i < fields@.len() ==> json_sorted(#[trigger] fields@[i].1),
        _ => true,
    }
}

proof fn lemma_text_lt_irreflexive(a: Seq<char>)
    ensures
        !text_lt(a, a),
    decreases a.len(),
{
    if a.len() > 0 {
        lemma_text_lt_irreflexive(a.drop_first());
    }
}

/// Ascending member names are distinct.
pub proof fn lemma_ascending_distinct(fields: Seq<(String, Json)>)
    requires
        keys_ascending(fields),
    ensures
        keys_distinct(fields),
{
    assert forall|i: int, j: int| 0 <= i < j < fields.len() implies #[trigger] fields[i].0@ != #[trigger] fields[j].0@ by {
        lemma_text_lt_irreflexive(fields[i].0@);
        assert(text_lt(fields[i].0@, fields[j].0@));
    }
}

/// What `serde_json::from_str::<Value>` makes of `text`: the value, or
/// `None` when the text is not one JSON document.
pub uninterp spec fn json_parse(text: Seq<char>) -> Option<Json>;

#[verifier::external_type_specification]
#[verifier::external_body]
pub struct ExJsonValue(Value);

/// The library's form of a `serde_json::Value`, variant for variant (an
/// integer as `PosInt` or `NegInt` as serde_json classifies it, any other
/// number with its printed text). Nothing is stated of it here: `parse_json`,
/// its one caller, states the outcome.
#[verifier::external_body]
fn json_of_value(v: &Value) -> (r: Json) {
    match v {
        Value::Null => Json::Null,
        Value::Bool(b) => Json::Bool(*b),
        Value::Number(n) => Json::Number(match (n.as_u64(), n.as_i64()) {
            (Some(u), _) => JsonNumber::PosInt(u),
            (None, Some(i)) => JsonNumber::NegInt(i),
            (None, None) => JsonNumber::Float(n.to_string()),
        }),
        Value::String(t) => Json::Str(t.clone()),
        Value::Array(a) => Json::Array(a.iter().map(json_of_value).collect()),
        Value::Object(m) => Json::Object(m.iter().map(|(k, x)| (k.clone(), json_of_value(x))).collect()),
    }
}

/// Calls `serde_json::from_str::<serde_json::Value>` and converts the value.
/// Trusted: the outcome is `json_parse` of the text, and, as serde_json is
/// built here without `preserve_order`, every object is its `BTreeMap`
/// handed out in key order, so member names ascend.
#[verifier::external_body]
pub(crate) fn parse_json(text: &str) -> (r: Option<Json>)
    ensures
        r == json_parse(text@),
        r matches Some(j) ==> json_sorted(j),
{
    match serde_json::from_str::<Value>(text) {
        Ok(v) => Some(json_of_value(&v)),
        Err(_) => None,
    }
}

} // verus!
