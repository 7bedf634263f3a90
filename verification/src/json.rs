//! A generic JSON-value abstraction.
//!
//! `JsonModel` is the ghost model every contract speaks of. `JsonValue`
//! is the document form the crate builds itself, for the record codec.
//! Parsing provider bodies is left to `serde_json`, behind trusted
//! declarations whose contracts relate a parsed document to its model.

use vstd::prelude::*;

verus! {

/// The ghost model of a JSON document.
#[verifier::ext_equal]
pub enum JsonModel {
    Null,
    Bool(bool),
    Int(i64),
    /// A number that is no 64-bit signed integer; its value is not kept,
    /// since no provider field the crate reads carries one.
    OtherNumber,
    Str(Seq<char>),
    Arr(Seq<JsonModel>),
    Obj(Seq<(Seq<char>, JsonModel)>),
}

/// A JSON document built by the crate itself.
#[derive(Debug, PartialEq)]
pub enum JsonValue {
    Null,
    Bool(bool),
    Int(i64),
    Str(String),
    Arr(Vec<JsonValue>),
    Obj(Vec<(String, JsonValue)>),
}

impl JsonValue {
    /// The ghost document this value stands for.
    pub open spec fn model(&self) -> JsonModel
        decreases self,
        via Self::model_decreases
    {
        match self {
            JsonValue::Null => JsonModel::Null,
            JsonValue::Bool(b) => JsonModel::Bool(*b),
            JsonValue::Int(n) => JsonModel::Int(*n),
            JsonValue::Str(s) => JsonModel::Str(s@),
            JsonValue::Arr(items) => JsonModel::Arr(
                Seq::new(
                    items@.len(),
                    |i: int|
                        if 0 <= i < items@.len() {
                            items@[i].model()
                        } else {
                            JsonModel::Null
                        },
                ),
            ),
            JsonValue::Obj(entries) => JsonModel::Obj(
                Seq::new(
                    entries@.len(),
                    |i: int|
                        if 0 <= i < entries@.len() {
                            (entries@[i].0@, entries@[i].1.model())
                        } else {
                            (Seq::empty(), JsonModel::Null)
                        },
                ),
            ),
        }
    }

    #[via_fn]
    proof fn model_decreases(&self) {
        broadcast use vstd::seq::axiom_seq_index_decreases;
        broadcast use vstd::std_specs::vec::axiom_vec_decreases_to_view;
    }
}

impl View for JsonValue {
    type V = JsonModel;

    open spec fn view(&self) -> JsonModel {
        self.model()
    }
}

/// The models of a sequence of documents, element by element.
pub open spec fn models_of(s: Seq<JsonValue>) -> Seq<JsonModel> {
    Seq::new(
        s.len(),
        |i: int|
            if 0 <= i < s.len() {
                s[i].model()
            } else {
                JsonModel::Null
            },
    )
}

/// First value under `key` among an object's entries.
pub open spec fn obj_entries_get(
    entries: Seq<(Seq<char>, JsonModel)>,
    key: Seq<char>,
) -> Option<JsonModel>
    decreases entries.len(),
{
    if entries.len() == 0 {
        Option::None
    } else if entries[0].0 == key {
        Option::Some(entries[0].1)
    } else {
        obj_entries_get(entries.drop_first(), key)
    }
}

/// The value under `key` when the document is an object, else nothing.
pub open spec fn obj_get(m: JsonModel, key: Seq<char>) -> Option<JsonModel> {
    match m {
        JsonModel::Obj(entries) => obj_entries_get(entries, key),
        _ => Option::None,
    }
}

#[verifier::external_type_specification]
#[verifier::external_body]
pub struct ExValue(serde_json::Value);

/// The document a text parses to, if any; a function of the text alone.
pub uninterp spec fn json_of(s: Seq<char>) -> Option<JsonModel>;

/// The model of a parsed document.
pub uninterp spec fn value_model(v: serde_json::Value) -> JsonModel;

/// Relies on serde_json::from_str: parses text into a JSON document; the
/// outcome depends on the text alone.
#[verifier::external_body]
pub fn parse_json(s: &str) -> (r: Option<serde_json::Value>)
    ensures
        r matches Some(v) ==> json_of(s@) == Some(value_model(v)),
        r is Some <==> json_of(s@) is Some,
{
    serde_json::from_str(s).ok()
}

/// Relies on serde_json::Value::get with a string index: looks the key up
/// when the document is an object, else yields nothing.
#[verifier::external_body]
pub fn value_get<'a>(v: &'a serde_json::Value, key: &str) -> (r: Option<&'a serde_json::Value>)
    ensures
        r matches Some(c) ==> obj_get(value_model(*v), key@) == Some(value_model(*c)),
        r is Some <==> obj_get(value_model(*v), key@) is Some,
{
    v.get(key)
}

/// Relies on serde_json::Value::as_str: yields the text exactly when the
/// document is a string.
#[verifier::external_body]
pub fn value_as_str<'a>(v: &'a serde_json::Value) -> (r: Option<&'a str>)
    ensures
        r matches Some(s) ==> value_model(*v) == JsonModel::Str(s@),
        r is Some <==> value_model(*v) is Str,
{
    v.as_str()
}

/// Relies on serde_json::Value::as_array: yields the elements exactly
/// when the document is an array.
#[verifier::external_body]
pub fn value_as_array<'a>(v: &'a serde_json::Value) -> (r: Option<&'a Vec<serde_json::Value>>)
    ensures
        r matches Some(items) ==> (value_model(*v) matches JsonModel::Arr(ms) && ms.len()
            == items@.len() && (forall|i: int|
            0 <= i < items@.len() ==> ms[i] == value_model(items@[i]))),
        r is Some <==> value_model(*v) is Arr,
{
    v.as_array()
}

} // verus!
