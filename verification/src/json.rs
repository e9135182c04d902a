//! JSON values as plain data.

use vstd::prelude::*;

verus! {

/// A JSON value. A number is held as it is written, an object as the
/// names of its members and, in the same order, their values.
#[derive(Debug)]
pub enum Json {
    Null,
    Bool(bool),
    Number(String),
    Text(String),
    List(Vec<Json>),
    Object { names: Vec<String>, values: Vec<Json> },
}

/// The mathematical content of a JSON value.
pub ghost enum JsonView {
    Null,
    Bool(bool),
    Number(Seq<char>),
    Text(Seq<char>),
    List(Seq<JsonView>),
    Object { names: Seq<Seq<char>>, values: Seq<JsonView> },
}

impl View for Json {
    type V = JsonView;

    open spec fn view(&self) -> JsonView
        decreases self,
    {
        match self {
            Json::Null => JsonView::Null,
            Json::Bool(b) => JsonView::Bool(*b),
            Json::Number(n) => JsonView::Number(n@),
            Json::Text(t) => JsonView::Text(t@),
            Json::List(items) => JsonView::List(
                Seq::new(
                    items@.len(),
                    |i: int|
                        if 0 <= i < items@.len() {
                            items@[i].view()
                        } else {
                            JsonView::Null
                        },
                ),
            ),
            Json::Object { names, values } => JsonView::Object {
                names: names.deep_view(),
                values: Seq::new(
                    values@.len(),
                    |i: int|
                        if 0 <= i < values@.len() {
                            values@[i].view()
                        } else {
                            JsonView::Null
                        },
                ),
            },
        }
    }
}

/// Makes `serde_json::Value` known as a type; nothing is read of it.
#[verifier::external_type_specification]
#[verifier::external_body]
pub struct ExValue(serde_json::Value);

/// The mathematical content of a value that may be missing.
pub open spec fn json_view(json: Option<Json>) -> Option<JsonView> {
    match json {
        Some(value) => Some(value@),
        None => None,
    }
}

/// The value that `text` is the JSON of; `None` where it is not JSON.
pub uninterp spec fn json_value(text: Seq<char>) -> Option<JsonView>;

/// Takes a `serde_json::Value` apart, variant by variant, into the same
/// value as plain data. A number is written out with `Number`'s
/// `to_string`, the names and the values of an object's members come in
/// the order in which its map hands them out.
#[verifier::external_body]
fn plain(value: &serde_json::Value) -> Json {
    match value {
        serde_json::Value::Null => Json::Null,
        serde_json::Value::Bool(b) => Json::Bool(*b),
        serde_json::Value::Number(n) => Json::Number(n.to_string()),
        serde_json::Value::String(s) => Json::Text(s.clone()),
        serde_json::Value::Array(items) => Json::List(items.iter().map(plain).collect()),
        serde_json::Value::Object(members) => Json::Object {
            names: members.keys().cloned().collect(),
            values: members.values().map(plain).collect(),
        },
    }
}

/// Calls `serde_json::from_str` for a `serde_json::Value` and hands the
/// value on as plain data; an error becomes `None`. Nothing is claimed of
/// the value but that it is a function of the text.
#[verifier::external_body]
pub(crate) fn read_json(text: &str) -> (json: Option<Json>)
    ensures
        json_view(json) == json_value(text@),
{
    match serde_json::from_str::<serde_json::Value>(text) {
        Ok(value) => Some(plain(&value)),
        Err(_) => None,
    }
}

} // verus!
