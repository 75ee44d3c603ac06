//! JSON documents as plain values.

use vstd::prelude::*;

verus! {

/// A JSON value.  A number is held as the text that writes it.
#[derive(Debug, PartialEq, Eq)]
pub enum Json {
    Null,
    Bool(bool),
    Number(String),
    Text(String),
    Array(Vec<Json>),
    Object(Vec<Member>),
}

/// A named member of a JSON object.
#[derive(Debug, PartialEq, Eq)]
pub struct Member {
    pub name: String,
    pub value: Json,
}

/// What a `Json` holds.
pub ghost enum JsonModel {
    Null,
    Bool(bool),
    Number(Seq<char>),
    Text(Seq<char>),
    Array(Seq<JsonModel>),
    Object(Seq<(Seq<char>, JsonModel)>),
}

/// What a JSON value holds: for an array what each item holds, for an
/// object the name of each member and what its value holds.
pub open spec fn json_model(value: Json) -> JsonModel
    decreases value,
{
    match value {
        Json::Null => JsonModel::Null,
        Json::Bool(b) => JsonModel::Bool(b),
        Json::Number(text) => JsonModel::Number(text@),
        Json::Text(text) => JsonModel::Text(text@),
        Json::Array(items) => JsonModel::Array(
            Seq::new(
                items@.len(),
                |i: int|
                    if 0 <= i < items@.len() {
                        json_model(items@[i])
                    } else {
                        arbitrary()
                    },
            ),
        ),
        Json::Object(members) => JsonModel::Object(
            Seq::new(
                members@.len(),
                |i: int|
                    if 0 <= i < members@.len() {
                        (members@[i].name@, json_model(members@[i].value))
                    } else {
                        arbitrary()
                    },
            ),
        ),
    }
}

/// What each value of a list holds.
pub open spec fn json_models(values: Seq<Json>) -> Seq<JsonModel> {
    Seq::new(values.len(), |i: int| values[i]@)
}

impl View for Json {
    type V = JsonModel;

    open spec fn view(&self) -> JsonModel {
        json_model(*self)
    }
}

/// A JSON value as `serde_json` holds it.
#[verifier::external_type_specification]
#[verifier::external_body]
pub struct ExValue(serde_json::Value);

/// Why `serde_json` could not read a text.
#[verifier::external_type_specification]
#[verifier::external_body]
pub struct ExError(serde_json::Error);

/// What a value of `serde_json` holds.
pub uninterp spec fn value_model(value: serde_json::Value) -> JsonModel;

/// The value that `serde_json` reads from a text, where it reads one.
pub uninterp spec fn document_model(text: Seq<char>) -> Option<JsonModel>;

/// `serde_json::from_str` reads a text as one JSON value.  What it reads
/// depends on the text alone, and it fails on a text that is no JSON
/// document.
#[verifier::external_body]
fn read_value(text: &str) -> (res: Result<serde_json::Value, serde_json::Error>)
    ensures
        match res {
            Ok(value) => document_model(text@) == Some(value_model(value)),
            Err(_) => document_model(text@) is None,
        },
{
    serde_json::from_str::<serde_json::Value>(text)
}

/// Copies a value of `serde_json`, variant by variant: a number as the text
/// that `serde_json` writes for it, the members of an object in the order
/// in which its map hands them out.
#[verifier::external_body]
fn copy_value(value: &serde_json::Value) -> (res: Json)
    ensures
        res@ == value_model(*value),
{
    match value {
        serde_json::Value::Null => Json::Null,
        serde_json::Value::Bool(b) => Json::Bool(*b),
        serde_json::Value::Number(n) => Json::Number(n.to_string()),
        serde_json::Value::String(s) => Json::Text(s.clone()),
        serde_json::Value::Array(items) => Json::Array(items.iter().map(copy_value).collect()),
        serde_json::Value::Object(map) => Json::Object(
            map.iter().map(|(k, v)| Member { name: k.clone(), value: copy_value(v) }).collect(),
        ),
    }
}

/// Why a text is no list of responses.
#[derive(Clone, Copy, Debug, PartialEq, Eq, Structural)]
pub enum DecodeError {
    /// The text is no JSON document.
    Syntax,
    /// The document is no list.
    NotAList,
    /// A response lacks the number of its turn, a count under `turnNumber`.
    TurnNumber,
    /// A response lacks the playouts of its position, a count under
    /// `visits` in `rootInfo`.
    RootVisits,
    /// A response lacks the win-rate of its position, a number from zero to
    /// one under `winrate` in `rootInfo`.
    RootWinrate,
    /// A response lacks the list of its candidates, under `moveInfos`.
    MoveInfos,
    /// A candidate lacks its label, a text under `move`.
    Move,
    /// A candidate lacks its rank, a count under `order`.
    Order,
    /// A candidate lacks its line, a list of texts under `pv`.
    PrincipalVariation,
    /// A candidate lacks its playouts, a count under `visits`.
    Visits,
    /// A candidate lacks its win-rate, a number from zero to one under
    /// `winrate`.
    Winrate,
}

/// Reads a text as one JSON value.
pub fn parse_json(text: &str) -> (res: Result<Json, DecodeError>)
    ensures
        match document_model(text@) {
            Some(model) => res is Ok && res->Ok_0@ == model,
            None => res == Err::<Json, DecodeError>(DecodeError::Syntax),
        },
{
    match read_value(text) {
        Ok(value) => Ok(copy_value(&value)),
        Err(_) => Err(DecodeError::Syntax),
    }
}

} // verus!
