//! JSON values as command values: made from text (JSON, or else a JSON string of the text),
//! indexed by position, and written back as JSON text.
use vstd::prelude::*;

use crate::CommandArgsValue;

pub use serde_json::{from_value, to_value, Value};

verus! {

#[verifier::external_type_specification]
#[verifier::external_body]
pub struct ExJsonError(serde_json::Error);

#[verifier::external_type_specification]
#[verifier::external_body]
pub struct ExJsonValue(serde_json::Value);

/// A JSON value, as plain values: a number is kept as its JSON text, and an object as its
/// entries in the order in which serde_json keeps them (sorted by key)
#[derive(Debug, PartialEq)]
pub enum Json {
    Null,
    Bool(bool),
    Number(String),
    Str(String),
    Array(Vec<Json>),
    Object(Vec<(String, Json)>),
}

/// What `serde_json::from_str::<serde_json::Value>` makes of a text, if it is JSON
pub uninterp spec fn json_parsed(s: Seq<char>) -> Option<Json>;

/// The JSON text that `serde_json::to_string` writes for a value
pub uninterp spec fn json_text(v: Json) -> Seq<char>;

/// The result is the JSON string of the text
pub open spec fn is_string_of(r: Result<Json, serde_json::Error>, s: Seq<char>) -> bool {
    r matches Ok(Json::Str(t)) && t@ == s
}

/// Text `a` comes before text `b`: at the first place where they differ `a` has the smaller
/// character, or `a` is a proper beginning of `b` (the order of `String`, by which serde_json's
/// map keeps its keys)
pub open spec fn text_before(a: Seq<char>, b: Seq<char>) -> bool
    decreases a.len(),
{
    if a.len() == 0 {
        b.len() > 0
    } else if b.len() == 0 {
        false
    } else if a[0] != b[0] {
        (a[0] as u32) < (b[0] as u32)
    } else {
        text_before(a.drop_first(), b.drop_first())
    }
}

/// A JSON value as serde_json keeps one: the entries of each object in increasing order of
/// their keys (so no key occurs twice), and each item and entry value so in turn
pub open spec fn json_wf(j: Json) -> bool
    decreases j, 0int,
{
    match j {
        Json::Array(x) => items_wf(x, 0),
        Json::Object(x) => entries_wf(x, 0),
        _ => true,
    }
}

/// The items of an array from the index on are kept as serde_json keeps values
pub open spec fn items_wf(x: Vec<Json>, i: int) -> bool
    decreases x, x@.len() - i,
{
    if 0 <= i < x@.len() {
        proof {
            vstd::std_specs::vec::axiom_vec_index_decreases(x, i);
        }
        json_wf(x[i]) && items_wf(x, i + 1)
    } else {
        true
    }
}

/// The entries of an object from the index on are in increasing order of their keys, with
/// their values kept as serde_json keeps values
pub open spec fn entries_wf(x: Vec<(String, Json)>, i: int) -> bool
    decreases x, x@.len() - i,
{
    if 0 <= i < x@.len() {
        proof {
            vstd::std_specs::vec::axiom_vec_index_decreases(x, i);
        }
        &&& (i + 1 < x@.len() ==> text_before(x[i].0@, x[i + 1].0@))
        &&& json_wf(x[i].1)
        &&& entries_wf(x, i + 1)
    } else {
        true
    }
}

/// Two JSON values have the same variant and the same contents
pub open spec fn json_same(a: Json, b: Json) -> bool
    decreases a, 0int,
{
    match (a, b) {
        (Json::Null, Json::Null) => true,
        (Json::Bool(x), Json::Bool(y)) => x == y,
        (Json::Number(x), Json::Number(y)) => x@ == y@,
        (Json::Str(x), Json::Str(y)) => x@ == y@,
        (Json::Array(x), Json::Array(y)) => x@.len() == y@.len() && items_same(x, y, 0),
        (Json::Object(x), Json::Object(y)) => x@.len() == y@.len() && entries_same(x, y, 0),
        _ => false,
    }
}

/// The items of two arrays from the index on are the same
pub open spec fn items_same(x: Vec<Json>, y: Vec<Json>, i: int) -> bool
    decreases x, x@.len() - i,
{
    if 0 <= i < x@.len() && i < y@.len() {
        proof {
            vstd::std_specs::vec::axiom_vec_index_decreases(x, i);
        }
        json_same(x[i], y[i]) && items_same(x, y, i + 1)
    } else {
        true
    }
}

/// The entries of two objects from the index on have the same keys and values
pub open spec fn entries_same(x: Vec<(String, Json)>, y: Vec<(String, Json)>, i: int) -> bool
    decreases x, x@.len() - i,
{
    if 0 <= i < x@.len() && i < y@.len() {
        proof {
            vstd::std_specs::vec::axiom_vec_index_decreases(x, i);
        }
        x[i].0@ == y[i].0@ && json_same(x[i].1, y[i].1) && entries_same(x, y, i + 1)
    } else {
        true
    }
}

proof fn lemma_items_same(x: Vec<Json>, y: Vec<Json>, i: int)
    requires
        0 <= i <= x@.len(),
        x@.len() == y@.len(),
        forall|j: int| i <= j < x@.len() ==> #[trigger] json_same(x@[j], y@[j]),
    ensures
        items_same(x, y, i),
    decreases x@.len() - i,
{
    if i < x@.len() {
        assert(json_same(x@[i], y@[i]));
        lemma_items_same(x, y, i + 1);
    }
}

proof fn lemma_entries_same(x: Vec<(String, Json)>, y: Vec<(String, Json)>, i: int)
    requires
        0 <= i <= x@.len(),
        x@.len() == y@.len(),
        forall|j: int|
            i <= j < x@.len() ==> (#[trigger] x@[j]).0@ == y@[j].0@ && json_same(x@[j].1, y@[j].1),
    ensures
        entries_same(x, y, i),
    decreases x@.len() - i,
{
    if i < x@.len() {
        assert(x@[i].0@ == y@[i].0@ && json_same(x@[i].1, y@[i].1));
        lemma_entries_same(x, y, i + 1);
    }
}

impl Json {
    /// A copy of the value, with the same contents
    pub fn duplicate(&self) -> (r: Json)
        ensures
            json_same(r, *self),
        decreases self,
    {
        match self {
            Json::Null => Json::Null,
            Json::Bool(b) => Json::Bool(*b),
            Json::Number(t) => Json::Number(t.clone()),
            Json::Str(t) => Json::Str(t.clone()),
            Json::Array(a) => {
                let mut v: Vec<Json> = Vec::new();
                let mut i: usize = 0;
                while i < a.len()
                    invariant
                        *self == Json::Array(*a),
                        i <= a@.len(),
                        v@.len() == i,
                        forall|j: int| 0 <= j < i ==> #[trigger] json_same(v@[j], a@[j]),
                    decreases a@.len() - i,
                {
                    proof {
                        vstd::std_specs::vec::axiom_vec_index_decreases(*a, i as int);
                        assert(decreases_to!(*self => (*self)->Array_0));
                        assert(decreases_to!(*self => a[i as int]));
                    }
                    let x = a[i].duplicate();
                    v.push(x);
                    i += 1;
                }
                proof {
                    lemma_items_same(v, *a, 0);
                }
                Json::Array(v)
            },
            Json::Object(o) => {
                let mut v: Vec<(String, Json)> = Vec::new();
                let mut i: usize = 0;
                while i < o.len()
                    invariant
                        *self == Json::Object(*o),
                        i <= o@.len(),
                        v@.len() == i,
                        forall|j: int|
                            0 <= j < i ==> (#[trigger] v@[j]).0@ == o@[j].0@ && json_same(
                                v@[j].1,
                                o@[j].1,
                            ),
                    decreases o@.len() - i,
                {
                    proof {
                        vstd::std_specs::vec::axiom_vec_index_decreases(*o, i as int);
                        assert(decreases_to!(*self => (*self)->Object_0));
                        assert(decreases_to!(*self => o[i as int].1));
                    }
                    let k = o[i].0.clone();
                    let x = o[i].1.duplicate();
                    v.push((k, x));
                    i += 1;
                }
                proof {
                    lemma_entries_same(v, *o, 0);
                }
                Json::Object(v)
            },
        }
    }
}

impl Default for Json {
    fn default() -> (r: Json)
        ensures
            r is Null,
    {
        Json::Null
    }
}

/// The plain value of one of serde_json's values; a number is kept as its text
#[verifier::external_body]
fn json_of_value(v: &serde_json::Value) -> Json {
    match v {
        serde_json::Value::Null => Json::Null,
        serde_json::Value::Bool(b) => Json::Bool(*b),
        serde_json::Value::Number(n) => Json::Number(n.to_string()),
        serde_json::Value::String(t) => Json::Str(t.clone()),
        serde_json::Value::Array(a) => Json::Array(a.iter().map(json_of_value).collect()),
        serde_json::Value::Object(o) => Json::Object(
            o.iter().map(|(k, x)| (k.clone(), json_of_value(x))).collect(),
        ),
    }
}

/// serde_json's value of a plain value; a number whose text `serde_json::Number`'s `FromStr`
/// refuses becomes `null`
#[verifier::external_body]
fn value_of_json(j: &Json) -> serde_json::Value {
    match j {
        Json::Null => serde_json::Value::Null,
        Json::Bool(b) => serde_json::Value::Bool(*b),
        Json::Number(t) => match t.parse::<serde_json::Number>() {
            Ok(n) => serde_json::Value::Number(n),
            Err(_) => serde_json::Value::Null,
        },
        Json::Str(t) => serde_json::Value::String(t.clone()),
        Json::Array(a) => serde_json::Value::Array(a.iter().map(value_of_json).collect()),
        Json::Object(o) => serde_json::Value::Object(
            o.iter().map(|(k, x)| (k.clone(), value_of_json(x))).collect(),
        ),
    }
}

/// `serde_json::from_str::<serde_json::Value>`: the value of the text, when it is JSON. The
/// result depends on the text alone, and is named by `json_parsed`. An object's entries come
/// in the order of serde_json's map, a `BTreeMap` by key (the `preserve_order` feature is not
/// used), so in increasing order of their keys.
#[verifier::external_body]
fn json_parse(s: &str) -> (r: Option<Json>)
    ensures
        r == json_parsed(s@),
        r matches Some(j) ==> json_wf(j),
{
    match serde_json::from_str::<serde_json::Value>(s) {
        Ok(v) => Some(json_of_value(&v)),
        Err(_) => None,
    }
}

/// `serde_json::to_value` of a `&str`: serde_json serialises a string as `Value::String` of a
/// copy of it, and never fails on one
#[verifier::external_body]
fn json_string_value(s: &str) -> (r: Result<Json, serde_json::Error>)
    ensures
        is_string_of(r, s@),
{
    match serde_json::to_value(s) {
        Ok(v) => Ok(json_of_value(&v)),
        Err(e) => Err(e),
    }
}

/// `serde_json::to_string` of the value: its compact JSON text, named by `json_text`. Writing a
/// `serde_json::Value` never fails, its object keys being strings.
#[verifier::external_body]
fn json_to_string(j: &Json) -> (s: String)
    ensures
        s@ == json_text(*j),
{
    match serde_json::to_string(&value_of_json(j)) {
        Ok(s) => s,
        Err(_) => String::new(),
    }
}

/// The value of a text, given what the JSON parse of the text gave: the parsed value, or, where
/// the text is not JSON, the JSON string of the text
pub fn json_value_of_text(parsed: Option<Json>, s: &str) -> (r: Result<Json, serde_json::Error>)
    ensures
        r is Ok,
        parsed matches Some(v) ==> r == Ok::<Json, serde_json::Error>(v),
        parsed is None ==> (r matches Ok(Json::Str(t)) && t@ == s@),
{
    match parsed {
        Some(v) => Ok(v),
        None => json_string_value(s),
    }
}

/// Types that can be made from a string, as JSON values are
pub trait JsonValueConvert: Sized {
    type Error: Sized;

    fn value_from_str(s: &str) -> Result<Self, Self::Error>;
}

impl JsonValueConvert for Json {
    type Error = serde_json::Error;

    /// The JSON value of the text where it is JSON, else the JSON string of the text; this
    /// never fails
    fn value_from_str(s: &str) -> (r: Result<Json, serde_json::Error>)
        ensures
            r is Ok,
            json_parsed(s@) matches Some(v) ==> r == Ok::<Json, serde_json::Error>(v),
            json_parsed(s@) is None ==> (r matches Ok(Json::Str(t)) && t@ == s@),
            r matches Ok(v) ==> json_wf(v),
    {
        json_value_of_text(json_parse(s), s)
    }
}

impl CommandArgsValue for Json {
    const CAN_INDEX: bool = true;

    const CAN_GET: bool = true;

    open spec fn spec_value_string(&self) -> Seq<char> {
        json_text(*self)
    }

    open spec fn spec_is_none(&self) -> bool {
        *self is Null
    }

    open spec fn spec_has_index(&self, n: usize) -> bool {
        *self matches Json::Array(a) && n < a@.len()
    }

    open spec fn spec_has_key(&self, key: Seq<char>) -> bool {
        false
    }

    fn value_string(&self) -> (s: String) {
        json_to_string(self)
    }

    fn is_none(&self) -> (b: bool) {
        matches!(self, Json::Null)
    }

    /// Whether the value is an array or object without entries; other values count as empty
    fn is_empty(&self) -> (r: bool)
        ensures
            r == match *self {
                Json::Array(a) => a@.len() == 0,
                Json::Object(o) => o@.len() == 0,
                _ => true,
            },
    {
        match self {
            Json::Array(a) => a.len() == 0,
            Json::Object(o) => o.len() == 0,
            _ => true,
        }
    }

    /// The number of entries of an array or object
    fn len(&self) -> (r: Option<usize>)
        ensures
            r == match *self {
                Json::Array(a) => Some(a@.len() as usize),
                Json::Object(o) => Some(o@.len() as usize),
                _ => None::<usize>,
            },
    {
        match self {
            Json::Array(a) => Some(a.len()),
            Json::Object(o) => Some(o.len()),
            _ => None,
        }
    }

    /// A copy of the element at the index of an array
    fn index(&self, n: usize) -> (r: Option<Json>)
        ensures
            r matches Some(x) ==> (*self matches Json::Array(a) && json_same(x, a@[n as int])),
    {
        match self {
            Json::Array(a) => {
                if n < a.len() {
                    Some(a[n].duplicate())
                } else {
                    None
                }
            },
            _ => None,
        }
    }

    /// Values are not looked up by key
    fn get(&self, key: &str) -> (r: Option<Json>) {
        None
    }

    /// The key of the entry at the index of an object
    fn key(&self, n: usize) -> (r: Option<&str>)
        ensures
            match *self {
                Json::Object(o) => if n < o@.len() {
                    r matches Some(k) && k@ == o@[n as int].0@
                } else {
                    r is None
                },
                _ => r is None,
            },
    {
        match self {
            Json::Object(o) => {
                if n < o.len() {
                    Some(o[n].0.as_str())
                } else {
                    None
                }
            },
            _ => None,
        }
    }

    fn is_array(&self) -> (r: bool)
        ensures
            r == *self is Array,
    {
        matches!(self, Json::Array(_))
    }

    /// Whether the value is an object (a map of keys to values)
    fn is_map(&self) -> (r: bool)
        ensures
            r == *self is Object,
    {
        matches!(self, Json::Object(_))
    }
}

} // verus!
