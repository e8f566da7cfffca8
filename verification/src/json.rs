//! JSON values as the library reads them, and the calls into `serde_json`.
use vstd::prelude::*;

verus! {

/// A JSON document. Numbers are kept as the text `serde_json` prints for
/// them; objects keep their entries in order, each key once.
#[derive(Debug)]
pub enum JsonValue {
    Null,
    Bool(bool),
    Number(String),
    String(String),
    Array(Vec<JsonValue>),
    Object(Vec<(String, JsonValue)>),
}

/// The index of the first entry of `entries` with key `key`, searching from `i`.
pub open spec fn entry_index(entries: Seq<(String, JsonValue)>, key: Seq<char>, i: int) -> Option<int>
    decreases entries.len() - i,
{
    if i < 0 || i >= entries.len() {
        None
    } else if entries[i].0@ == key {
        Some(i)
    } else {
        entry_index(entries, key, i + 1)
    }
}

/// The value under `key` when `v` is an object that has it.
pub open spec fn json_field(v: JsonValue, key: Seq<char>) -> Option<JsonValue> {
    match v {
        JsonValue::Object(entries) => match entry_index(entries@, key, 0) {
            Some(i) => Some(entries@[i].1),
            None => None,
        },
        _ => None,
    }
}

/// The text of `v` when it is a string.
pub open spec fn json_text(v: JsonValue) -> Option<Seq<char>> {
    match v {
        JsonValue::String(s) => Some(s@),
        _ => None,
    }
}

impl JsonValue {
    /// The value under `key`, when `self` is an object that has it.
    pub fn get(&self, key: &str) -> (r: Option<&JsonValue>)
        ensures
            match r {
                Some(x) => json_field(*self, key@) == Some(*x),
                None => json_field(*self, key@) is None,
            },
    {
        match self {
            JsonValue::Object(entries) => {
                let mut i: usize = 0;
                while i < entries.len()
                    invariant
                        *self == JsonValue::Object(*entries),
                        i <= entries@.len(),
                        entry_index(entries@, key@, 0) == entry_index(entries@, key@, i as int),
                    decreases entries@.len() - i,
                {
                    if crate::text::str_eq(entries[i].0.as_str(), key) {
                        assert(entry_index(entries@, key@, i as int) == Some(i as int));
                        return Some(&entries[i].1);
                    }
                    i = i + 1;
                }
                None
            },
            _ => None,
        }
    }

    /// The text of `self`, when it is a string.
    pub fn as_str(&self) -> (r: Option<&str>)
        ensures
            match r {
                Some(x) => json_text(*self) == Some(x@),
                None => json_text(*self) is None,
            },
    {
        match self {
            JsonValue::String(s) => Some(s.as_str()),
            _ => None,
        }
    }
}

#[verifier::external_type_specification]
#[verifier::external_body]
pub struct ExJsonDocument(serde_json::Value);

/// What `serde_json::from_str::<serde_json::Value>` makes of `text`: the
/// parsed document, or `None` where it reports an error.
pub uninterp spec fn json_parse(text: Seq<char>) -> Option<serde_json::Value>;

/// What `serde_json::to_string_pretty` writes for `v`, or `None` where it
/// reports an error.
pub uninterp spec fn json_pretty(v: serde_json::Value) -> Option<Seq<char>>;

/// `serde_json::from_str::<serde_json::Value>`: the result is the named
/// function of the text; which texts parse, and into what, is left to `serde_json`.
#[verifier::external_body]
pub(crate) fn parse_json(text: &str) -> (r: Option<serde_json::Value>)
    ensures
        r == json_parse(text@),
{
    serde_json::from_str::<serde_json::Value>(text).ok()
}

/// `serde_json::to_string_pretty`: the result is the named function of the
/// document; its layout is left to `serde_json`.
#[verifier::external_body]
pub(crate) fn pretty_json(v: &serde_json::Value) -> (r: Option<String>)
    ensures
        match r {
            Some(s) => json_pretty(*v) == Some(s@),
            None => json_pretty(*v) is None,
        },
{
    serde_json::to_string_pretty(v).ok()
}

/// The library's `JsonValue` for a parsed document `v`.
pub uninterp spec fn document_model(v: serde_json::Value) -> JsonValue;

/// A `serde_json::Value` as a `JsonValue`, one variant for one: a number by
/// its `Display` text, an object by its entries in the map's order. The
/// result is the named function of the document.
#[verifier::external_body]
pub(crate) fn document_value(v: &serde_json::Value) -> (r: JsonValue)
    ensures
        r == document_model(*v),
{
    match v {
        serde_json::Value::Null => JsonValue::Null,
        serde_json::Value::Bool(b) => JsonValue::Bool(*b),
        serde_json::Value::Number(n) => JsonValue::Number(n.to_string()),
        serde_json::Value::String(s) => JsonValue::String(s.clone()),
        serde_json::Value::Array(items) => JsonValue::Array(items.iter().map(document_value).collect()),
        serde_json::Value::Object(m) => JsonValue::Object(
            m.iter().map(|(k, x)| (k.clone(), document_value(x))).collect(),
        ),
    }
}

} // verus!
