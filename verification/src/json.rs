//! JSON documents as plain values, and their members.
use vstd::prelude::*;

use crate::text::str_eq;
use serde_json::Value;

verus! {

/// A JSON number, as `serde_json` keeps it: a non-negative integer, a negative
/// integer, or any other number, held as its decimal text.
#[derive(Debug, Clone, PartialEq)]
pub enum JsonNumber {
    PosInt(u64),
    NegInt(i64),
    Float(String),
}

/// A JSON document. An object is the list of its members in order; a key is
/// looked up at its first occurrence.
#[derive(Debug, PartialEq)]
pub enum JsonValue {
    Null,
    Bool(bool),
    Number(JsonNumber),
    Str(String),
    Array(Vec<JsonValue>),
    Object(Vec<(String, JsonValue)>),
}

/// The first index at or after `i` of a member named `key`, or -1.
pub open spec fn key_index(entries: Seq<(String, JsonValue)>, key: Seq<char>, i: int) -> int
    decreases entries.len() - i,
{
    if i < 0 || i >= entries.len() {
        -1
    } else if entries[i].0@ == key {
        i
    } else {
        key_index(entries, key, i + 1)
    }
}

/// `key_index` is -1 or the first index at or after `i` whose key is `key`.
pub proof fn lemma_key_index(entries: Seq<(String, JsonValue)>, key: Seq<char>, i: int)
    requires
        0 <= i,
    ensures
        key_index(entries, key, i) == -1 || (i <= key_index(entries, key, i) < entries.len()
            && entries[key_index(entries, key, i)].0@ == key),
        forall|j: int|
            i <= j < entries.len() && (key_index(entries, key, i) == -1 || j < key_index(
                entries,
                key,
                i,
            )) ==> entries[j].0@ != key,
    decreases entries.len() - i,
{
    if i < entries.len() && entries[i].0@ != key {
        lemma_key_index(entries, key, i + 1);
    }
}

/// `key_index` only reads the keys.
pub proof fn lemma_key_index_same_keys(
    a: Seq<(String, JsonValue)>,
    b: Seq<(String, JsonValue)>,
    key: Seq<char>,
    i: int,
)
    requires
        a.len() == b.len(),
        forall|j: int| 0 <= j < a.len() ==> a[j].0@ == b[j].0@,
    ensures
        key_index(a, key, i) == key_index(b, key, i),
    decreases a.len() - i,
{
    if 0 <= i < a.len() {
        lemma_key_index_same_keys(a, b, key, i + 1);
    }
}

/// The members of an object; none for other values.
pub open spec fn object_entries(v: JsonValue) -> Seq<(String, JsonValue)> {
    match v {
        JsonValue::Object(entries) => entries@,
        _ => Seq::empty(),
    }
}

/// The member `key` of an object; none for other values or a missing key.
pub open spec fn member(v: JsonValue, key: Seq<char>) -> Option<JsonValue> {
    match v {
        JsonValue::Object(entries) => {
            let i = key_index(entries@, key, 0);
            if i < 0 {
                None
            } else {
                Some(entries@[i].1)
            }
        },
        _ => None,
    }
}

impl JsonValue {
    /// Whether this is an object.
    pub fn is_object(&self) -> (r: bool)
        ensures
            r == (*self is Object),
    {
        match self {
            JsonValue::Object(_) => true,
            _ => false,
        }
    }

    /// The string, when this is a string.
    pub fn as_str(&self) -> (r: Option<&str>)
        ensures
            match *self {
                JsonValue::Str(s) => r matches Some(t) && t@ == s@,
                _ => r is None,
            },
    {
        match self {
            JsonValue::Str(s) => Some(s.as_str()),
            _ => None,
        }
    }

    /// The integer, when this is an integer that fits in an `i64`.
    pub fn as_i64(&self) -> (r: Option<i64>)
        ensures
            r == match *self {
                JsonValue::Number(JsonNumber::PosInt(u)) => if u <= i64::MAX {
                    Some(u as i64)
                } else {
                    None
                },
                JsonValue::Number(JsonNumber::NegInt(n)) => Some(n),
                _ => None,
            },
    {
        match self {
            JsonValue::Number(JsonNumber::PosInt(u)) => {
                if *u <= i64::MAX as u64 {
                    Some(*u as i64)
                } else {
                    None
                }
            },
            JsonValue::Number(JsonNumber::NegInt(n)) => Some(*n),
            _ => None,
        }
    }

    /// The member `key` (see `member`).
    pub fn get(&self, key: &str) -> (r: Option<&JsonValue>)
        ensures
            match r {
                Some(x) => member(*self, key@) == Some(*x),
                None => member(*self, key@) is None,
            },
    {
        match self {
            JsonValue::Object(entries) => match find_key(entries, key) {
                Some(i) => Some(&entries[i].1),
                None => None,
            },
            _ => None,
        }
    }
}

/// The index of the first member named `key`.
pub fn find_key(entries: &Vec<(String, JsonValue)>, key: &str) -> (r: Option<usize>)
    ensures
        r matches Some(i) ==> i < entries@.len() && key_index(entries@, key@, 0) == i,
        r is None ==> key_index(entries@, key@, 0) == -1,
{
    let n = entries.len();
    let mut i: usize = 0;
    while i < n
        invariant
            n == entries@.len(),
            i <= n,
            key_index(entries@, key@, 0) == key_index(entries@, key@, i as int),
        decreases n - i,
    {
        if str_eq(entries[i].0.as_str(), key) {
            return Some(i);
        }
        i = i + 1;
    }
    None
}


/// Two documents are the same: same kinds, same scalars, same members and
/// elements in the same order.
pub open spec fn json_eq(a: JsonValue, b: JsonValue) -> bool
    decreases a,
{
    match a {
        JsonValue::Null => b is Null,
        JsonValue::Bool(x) => b matches JsonValue::Bool(y) && x == y,
        JsonValue::Number(x) => b matches JsonValue::Number(y) && number_eq(x, y),
        JsonValue::Str(x) => b matches JsonValue::Str(y) && x@ == y@,
        JsonValue::Array(x) => b matches JsonValue::Array(y) && x@.len() == y@.len() && forall|i: int|
            0 <= i < x@.len() ==> json_eq(#[trigger] x@[i], y@[i]),
        JsonValue::Object(x) => b matches JsonValue::Object(y) && x@.len() == y@.len() && forall|
            i: int,
        |
            0 <= i < x@.len() ==> (#[trigger] x@[i]).0@ == y@[i].0@ && json_eq(x@[i].1, y@[i].1),
    }
}

/// No two members of an object share a name.
pub open spec fn unique_keys(entries: Seq<(String, JsonValue)>) -> bool {
    forall|a: int, b: int|
        0 <= a < entries.len() && 0 <= b < entries.len() && #[trigger] entries[a].0@
            == #[trigger] entries[b].0@ ==> a == b
}

/// A well-formed document: every object in it, at any depth, names each
/// member once, as a JSON object read by `serde_json` does.
pub open spec fn json_wf(v: JsonValue) -> bool
    decreases v,
{
    match v {
        JsonValue::Array(x) => forall|i: int| 0 <= i < x@.len() ==> json_wf(#[trigger] x@[i]),
        JsonValue::Object(x) => unique_keys(x@) && forall|i: int|
            0 <= i < x@.len() ==> json_wf((#[trigger] x@[i]).1),
        _ => true,
    }
}

/// Two numbers are the same.
pub open spec fn number_eq(a: JsonNumber, b: JsonNumber) -> bool {
    match a {
        JsonNumber::PosInt(x) => b matches JsonNumber::PosInt(y) && x == y,
        JsonNumber::NegInt(x) => b matches JsonNumber::NegInt(y) && x == y,
        JsonNumber::Float(x) => b matches JsonNumber::Float(y) && x@ == y@,
    }
}

/// A copy of a number.
pub fn copy_number(n: &JsonNumber) -> (r: JsonNumber)
    ensures
        number_eq(r, *n),
{
    match n {
        JsonNumber::PosInt(x) => JsonNumber::PosInt(*x),
        JsonNumber::NegInt(x) => JsonNumber::NegInt(*x),
        JsonNumber::Float(x) => JsonNumber::Float(x.clone()),
    }
}

/// A copy of a document.
#[verifier::loop_isolation(false)]
pub fn copy_json(v: &JsonValue) -> (r: JsonValue)
    ensures
        json_eq(r, *v),
    decreases v,
{
    broadcast use vstd::std_specs::vec::axiom_vec_index_decreases;

    match v {
        JsonValue::Null => JsonValue::Null,
        JsonValue::Bool(b) => JsonValue::Bool(*b),
        JsonValue::Number(n) => JsonValue::Number(copy_number(n)),
        JsonValue::Str(s) => JsonValue::Str(s.clone()),
        JsonValue::Array(items) => {
            let mut out: Vec<JsonValue> = Vec::new();
            let mut i: usize = 0;
            while i < items.len()
                invariant
                    i <= items@.len(),
                    out@.len() == i,
                    forall|m: int| 0 <= m < i ==> json_eq(#[trigger] out@[m], items@[m]),
                decreases items@.len() - i,
            {
                assert(decreases_to!(*v => *items));
                assert(decreases_to!(*items => items[i as int]));
                assert(decreases_to!(*v => items[i as int]));
                out.push(copy_json(&items[i]));
                i = i + 1;
            }
            JsonValue::Array(out)
        },
        JsonValue::Object(entries) => {
            let mut out: Vec<(String, JsonValue)> = Vec::new();
            let mut i: usize = 0;
            while i < entries.len()
                invariant
                    i <= entries@.len(),
                    out@.len() == i,
                    forall|m: int|
                        0 <= m < i ==> (#[trigger] out@[m]).0@ == entries@[m].0@ && json_eq(
                            out@[m].1,
                            entries@[m].1,
                        ),
                decreases entries@.len() - i,
            {
                assert(decreases_to!(*v => *entries));
                assert(decreases_to!(*entries => entries[i as int]));
                assert(decreases_to!(entries[i as int] => entries[i as int].1));
                assert(decreases_to!(*v => entries[i as int].1));
                out.push((entries[i].0.clone(), copy_json(&entries[i].1)));
                i = i + 1;
            }
            JsonValue::Object(out)
        },
    }
}

// ---------------------------------------------------------------------------
// JSON text, through serde_json
// ---------------------------------------------------------------------------

#[verifier::external_type_specification]
#[verifier::external_body]
pub struct ExJsonValue(serde_json::Value);

/// What `serde_json::from_str::<serde_json::Value>` makes of `text`, read as a
/// document of this library: the document when the text parses, otherwise
/// the `Display` text of the error.
pub uninterp spec fn json_parse_outcome(text: Seq<char>) -> Result<JsonValue, Seq<char>>;

/// What `serde_json::Value`'s `Display` writes for the document `v` (compact
/// JSON text).
pub uninterp spec fn json_text_of(v: JsonValue) -> Seq<char>;

/// A `serde_json::Value` as a document of this library, variant for variant:
/// a number is kept as an unsigned integer when `as_u64` gives one, else as a
/// negative integer when `as_i64` gives one, else as its decimal text.
#[verifier::external_body]
fn value_from_outside(v: Value) -> JsonValue {
    match v {
        Value::Null => JsonValue::Null,
        Value::Bool(b) => JsonValue::Bool(b),
        Value::Number(n) => JsonValue::Number(match (n.as_u64(), n.as_i64()) {
            (Some(u), _) => JsonNumber::PosInt(u),
            (None, Some(i)) => JsonNumber::NegInt(i),
            (None, None) => JsonNumber::Float(n.to_string()),
        }),
        Value::String(s) => JsonValue::Str(s),
        Value::Array(a) => JsonValue::Array(a.into_iter().map(value_from_outside).collect()),
        Value::Object(m) => JsonValue::Object(m.into_iter().map(|(k, x)| (k, value_from_outside(x))).collect()),
    }
}

/// A document of this library as a `Value`, variant for variant
/// (the decimal text of a number read back with `serde_json::Number`'s
/// `FromStr`).
#[verifier::external_body]
fn value_to_outside(v: &JsonValue) -> Value {
    match v {
        JsonValue::Null => Value::Null,
        JsonValue::Bool(b) => Value::Bool(*b),
        JsonValue::Number(JsonNumber::PosInt(u)) => Value::from(*u),
        JsonValue::Number(JsonNumber::NegInt(i)) => Value::from(*i),
        JsonValue::Number(JsonNumber::Float(t)) => t.parse::<serde_json::Number>().map_or(Value::Null, Value::Number),
        JsonValue::Str(s) => Value::String(s.clone()),
        JsonValue::Array(a) => Value::Array(a.iter().map(value_to_outside).collect()),
        JsonValue::Object(e) => Value::Object(e.iter().map(|(k, x)| (k.clone(), value_to_outside(x))).collect()),
    }
}

/// `serde_json::from_str::<serde_json::Value>`, the value read as a document
/// of this library and the error turned into its `Display` text. Claimed: the
/// result is `json_parse_outcome(text)`, a function of the text alone, and a
/// parsed document is well formed, since each object comes from a
/// `serde_json::Map`, which holds a key at most once.
#[verifier::external_body]
pub(crate) fn parse_json_value(text: &str) -> (r: Result<JsonValue, String>)
    ensures
        match json_parse_outcome(text@) {
            Ok(v) => r matches Ok(w) && w == v && json_wf(w),
            Err(m) => r matches Err(e) && e@ == m,
        },
{
    serde_json::from_str::<serde_json::Value>(text).map(value_from_outside).map_err(|e| e.to_string())
}

/// The document written as JSON text by `serde_json::Value`'s `Display`.
/// Claimed: the text is `json_text_of(v)`, a function of the document alone.
#[verifier::external_body]
pub(crate) fn json_text(v: &JsonValue) -> (r: String)
    ensures
        r@ == json_text_of(*v),
{
    value_to_outside(v).to_string()
}

} // verus!
