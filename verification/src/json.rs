//! A JSON document model that the library's logic reads and rewrites, and its
//! exchange with `serde_json`, which parses and prints JSON text.

use vstd::prelude::*;

use crate::text::{chars_eq, chars_of, opt_view, str_eq};

verus! {

/// A JSON value as the library holds it.
///
/// Numbers keep their text as `serde_json` prints them; an object keeps its
/// entries in order, and a key is looked up at its first entry.
pub enum JsonValue {
    Null,
    Bool(bool),
    Number(String),
    Str(String),
    Array(Vec<JsonValue>),
    Object(Vec<(String, JsonValue)>),
}

/// The mathematical form of a [`JsonValue`].
pub enum Json {
    Null,
    Bool(bool),
    Number(Seq<char>),
    Str(Seq<char>),
    Array(Seq<Json>),
    Object(Seq<(Seq<char>, Json)>),
}

/// The mathematical form of a value.
pub open spec fn json_view(v: JsonValue) -> Json
    decreases v,
{
    match v {
        JsonValue::Null => Json::Null,
        JsonValue::Bool(b) => Json::Bool(b),
        JsonValue::Number(t) => Json::Number(t@),
        JsonValue::Str(s) => Json::Str(s@),
        JsonValue::Array(items) => Json::Array(
            Seq::new(
                items@.len(),
                |i: int|
                    if 0 <= i < items@.len() {
                        json_view(items@[i])
                    } else {
                        Json::Null
                    },
            ),
        ),
        JsonValue::Object(es) => Json::Object(
            Seq::new(
                es@.len(),
                |i: int|
                    if 0 <= i < es@.len() {
                        (es@[i].0@, json_view(es@[i].1))
                    } else {
                        (Seq::<char>::empty(), Json::Null)
                    },
            ),
        ),
    }
}

impl View for JsonValue {
    type V = Json;

    open spec fn view(&self) -> Json {
        json_view(*self)
    }
}

/// The mathematical form of the items of an array.
pub open spec fn items_view(items: Seq<JsonValue>) -> Seq<Json> {
    Seq::new(items.len(), |i: int| items[i]@)
}

/// The mathematical form of the entries of an object.
pub open spec fn entries_view(es: Seq<(String, JsonValue)>) -> Seq<(Seq<char>, Json)> {
    Seq::new(es.len(), |i: int| (es[i].0@, es[i].1@))
}

/// The view of an array is the view of its items.
pub proof fn lemma_array_view(items: Vec<JsonValue>)
    ensures
        JsonValue::Array(items)@ == Json::Array(items_view(items@)),
{
    let v = json_view(JsonValue::Array(items));
    let s = v->Array_0;
    assert(s =~= items_view(items@));
}

/// The view of an object is the view of its entries.
pub proof fn lemma_object_view(es: Vec<(String, JsonValue)>)
    ensures
        JsonValue::Object(es)@ == Json::Object(entries_view(es@)),
{
    let v = json_view(JsonValue::Object(es));
    let s = v->Object_0;
    assert(s =~= entries_view(es@));
}

/// `i` is the first entry of `es` whose key is `key`.
pub open spec fn first_key(es: Seq<(Seq<char>, Json)>, key: Seq<char>, i: int) -> bool {
    &&& 0 <= i < es.len()
    &&& es[i].0 == key
    &&& forall|j: int| 0 <= j < i ==> es[j].0 != key
}

/// The position of the first entry with key `key`, or -1 where none has it.
pub open spec fn key_pos(es: Seq<(Seq<char>, Json)>, key: Seq<char>) -> int {
    if exists|i: int| #[trigger] first_key(es, key, i) {
        choose|i: int| #[trigger] first_key(es, key, i)
    } else {
        -1
    }
}

/// At most one position is the first one with a key.
pub proof fn lemma_first_key_unique(es: Seq<(Seq<char>, Json)>, key: Seq<char>, i: int, j: int)
    requires
        first_key(es, key, i),
        first_key(es, key, j),
    ensures
        i == j,
{
}

/// The value that `Value::get(key)` finds: the value of the first entry with
/// that key, where the value is an object.
pub open spec fn json_get(v: Json, key: Seq<char>) -> Option<Json> {
    match v {
        Json::Object(es) => {
            let p = key_pos(es, key);
            if 0 <= p < es.len() {
                Some(es[p].1)
            } else {
                None
            }
        },
        _ => None,
    }
}

/// The text of a string value (`Value::as_str`).
pub open spec fn json_as_str(v: Json) -> Option<Seq<char>> {
    match v {
        Json::Str(s) => Some(s),
        _ => None,
    }
}

/// The string under `key` of an object, where there is one.
pub open spec fn json_str_field(v: Json, key: Seq<char>) -> Option<Seq<char>> {
    match json_get(v, key) {
        Some(f) => json_as_str(f),
        None => None,
    }
}

/// Finds the first entry of `es` whose key is `key`.
pub fn find_key(es: &Vec<(String, JsonValue)>, key: &Vec<char>) -> (res: Option<usize>)
    ensures
        match res {
            Some(i) => key_pos(entries_view(es@), key@) == i && i < es.len(),
            None => key_pos(entries_view(es@), key@) == -1,
        },
{
    let ghost ev = entries_view(es@);
    let mut i: usize = 0;
    while i < es.len()
        invariant
            i <= es.len(),
            ev == entries_view(es@),
            forall|j: int| 0 <= j < i ==> ev[j].0 != key@,
        decreases es.len() - i,
    {
        let k = chars_of(es[i].0.as_str());
        if chars_eq(&k, key) {
            assert(first_key(ev, key@, i as int));
            proof {
                let c = choose|c: int| #[trigger] first_key(ev, key@, c);
                lemma_first_key_unique(ev, key@, c, i as int);
            }
            return Some(i);
        }
        i = i + 1;
    }
    assert(!exists|c: int| #[trigger] first_key(ev, key@, c));
    None
}

/// The value under `key` of an object (`Value::get`).
pub fn get_field<'a>(v: &'a JsonValue, key: &str) -> (res: Option<&'a JsonValue>)
    ensures
        match res {
            Some(f) => json_get(v@, key@) == Some(f@),
            None => json_get(v@, key@) is None,
        },
{
    match v {
        JsonValue::Object(es) => {
            proof {
                lemma_object_view(*es);
            }
            let k = chars_of(key);
            match find_key(es, &k) {
                Some(i) => Some(&es[i].1),
                None => None,
            }
        },
        _ => None,
    }
}

/// The text of a string value (`Value::as_str`).
pub fn as_str(v: &JsonValue) -> (res: Option<&str>)
    ensures
        match res {
            Some(s) => json_as_str(v@) == Some(s@),
            None => json_as_str(v@) is None,
        },
{
    match v {
        JsonValue::Str(s) => Some(s.as_str()),
        _ => None,
    }
}

/// The string under `key` of an object
/// (`v.get(key).and_then(|x| x.as_str())`).
pub fn str_field<'a>(v: &'a JsonValue, key: &str) -> (res: Option<&'a str>)
    ensures
        match res {
            Some(s) => json_str_field(v@, key@) == Some(s@),
            None => json_str_field(v@, key@) is None,
        },
{
    match get_field(v, key) {
        Some(f) => as_str(f),
        None => None,
    }
}

/// Whether `v` is the string `s`.
pub fn is_str_equal(v: &JsonValue, s: &str) -> (res: bool)
    ensures
        res == (json_as_str(v@) == Some(s@)),
{
    match as_str(v) {
        Some(t) => str_eq(t, s),
        None => false,
    }
}

/// An object with the given entries.
pub fn object_of(es: Vec<(String, JsonValue)>) -> (res: JsonValue)
    ensures
        res@ == Json::Object(entries_view(es@)),
{
    proof {
        lemma_object_view(es);
    }
    JsonValue::Object(es)
}

// ---------------------------------------------------------------------------
// JSON text, through serde_json
// ---------------------------------------------------------------------------

/// `serde_json::Value`, declared so that values of it can be carried through
/// the conversions below; nothing inside it is visible to proofs.
#[verifier::external_type_specification]
#[verifier::external_body]
pub struct ExSerdeJsonValue(serde_json::Value);

/// Carries a `serde_json::Value` over into the library's model, value by value:
/// a number keeps the text that `serde_json` prints for it.
#[verifier::external_body]
pub(crate) fn value_from_serde(v: serde_json::Value) -> JsonValue {
    match v {
        serde_json::Value::Null => JsonValue::Null,
        serde_json::Value::Bool(b) => JsonValue::Bool(b),
        serde_json::Value::Number(n) => JsonValue::Number(n.to_string()),
        serde_json::Value::String(s) => JsonValue::Str(s),
        serde_json::Value::Array(a) => JsonValue::Array(a.into_iter().map(value_from_serde).collect()),
        serde_json::Value::Object(m) => JsonValue::Object(
            m.into_iter().map(|(k, x)| (k, value_from_serde(x))).collect(),
        ),
    }
}

/// Carries a model value over into a `serde_json::Value`, value by value; a
/// number's text is read back by `serde_json`, whose error is passed on.
#[verifier::external_body]
pub(crate) fn value_to_serde(v: &JsonValue) -> Result<serde_json::Value, String> {
    Ok(match v {
        JsonValue::Null => serde_json::Value::Null,
        JsonValue::Bool(b) => serde_json::Value::Bool(*b),
        JsonValue::Number(t) => serde_json::Value::Number(serde_json::from_str(t).map_err(|e| e.to_string())?),
        JsonValue::Str(s) => serde_json::Value::String(s.clone()),
        JsonValue::Array(a) => serde_json::Value::Array(a.iter().map(value_to_serde).collect::<Result<_, _>>()?),
        JsonValue::Object(es) => serde_json::Value::Object(
            es.iter().map(|(k, x)| Ok((k.clone(), value_to_serde(x)?))).collect::<Result<_, String>>()?,
        ),
    })
}

/// What `serde_json::from_str::<serde_json::Value>` reads from a JSON text,
/// in the library's model; `None` where the text is not JSON.
pub uninterp spec fn json_text_value(text: Seq<char>) -> Option<Json>;

/// Reads a JSON text with `serde_json::from_str`.
///
/// Trusted: the result is `json_text_value` of the text, that is, a function of
/// the text alone; nothing more about JSON syntax is stated.
#[verifier::external_body]
pub(crate) fn serde_json_from_str(text: &str) -> (res: Option<JsonValue>)
    ensures
        match res {
            Some(v) => json_text_value(text@) == Some(v@),
            None => json_text_value(text@) is None,
        },
{
    match serde_json::from_str::<serde_json::Value>(text) {
        Ok(v) => Some(value_from_serde(v)),
        Err(_) => None,
    }
}

/// The compact JSON text that `serde_json` prints for a value (its `Display`),
/// in the library's model; `None` where a number's text does not read back as
/// a JSON number.
pub uninterp spec fn json_compact_text(v: Json) -> Option<Seq<char>>;

/// Prints a value as compact JSON with `serde_json`'s `Display`.
///
/// Trusted: the result is `json_compact_text` of the value, a function of the
/// value alone.
#[verifier::external_body]
pub(crate) fn serde_json_to_string(v: &JsonValue) -> (res: Option<String>)
    ensures
        opt_view(res) == json_compact_text(v@),
{
    match value_to_serde(v) {
        Ok(x) => Some(x.to_string()),
        Err(_) => None,
    }
}

/// Reads a JSON text into the library's model; `None` where it is not JSON.
pub fn parse_json(text: &str) -> (res: Option<JsonValue>)
    ensures
        match res {
            Some(v) => json_text_value(text@) == Some(v@),
            None => json_text_value(text@) is None,
        },
{
    serde_json_from_str(text)
}

/// The compact JSON text of a value; `None` where a number's text does not
/// read as a JSON number.
pub fn json_text(v: &JsonValue) -> (res: Option<String>)
    ensures
        opt_view(res) == json_compact_text(v@),
{
    serde_json_to_string(v)
}

} // verus!
