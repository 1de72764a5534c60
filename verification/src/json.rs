//! Decoded JSON values.

use vstd::prelude::*;

verus! {

/// A JSON value. Numbers are held as their decimal text, so that no digit is
/// lost; the fields of an object are held in the order in which they were
/// decoded.
#[derive(Debug, PartialEq, Eq)]
pub enum JsonValue {
    Null,
    Bool(bool),
    Number(String),
    Text(String),
    Array(Vec<JsonValue>),
    Object(Vec<(String, JsonValue)>),
}

/// The mathematical content of a [`JsonValue`].
pub ghost enum JsonView {
    Null,
    Bool(bool),
    Number(Seq<char>),
    Text(Seq<char>),
    Array(Seq<JsonView>),
    Object(Seq<(Seq<char>, JsonView)>),
}

impl JsonValue {
    /// The value with its strings and lists taken by their contents.
    pub open spec fn view(&self) -> JsonView
        decreases self,
    {
        match self {
            JsonValue::Null => JsonView::Null,
            JsonValue::Bool(b) => JsonView::Bool(*b),
            JsonValue::Number(text) => JsonView::Number(text@),
            JsonValue::Text(text) => JsonView::Text(text@),
            JsonValue::Array(items) => JsonView::Array(
                Seq::new(
                    items@.len(),
                    |i: int|
                        if 0 <= i < items@.len() {
                            items@[i].view()
                        } else {
                            JsonView::Null
                        },
                ),
            ),
            JsonValue::Object(fields) => JsonView::Object(
                Seq::new(
                    fields@.len(),
                    |i: int|
                        if 0 <= i < fields@.len() {
                            (fields@[i].0@, fields@[i].1.view())
                        } else {
                            (Seq::empty(), JsonView::Null)
                        },
                ),
            ),
        }
    }
}

/// The fields of an object with their keys and values taken by their
/// contents.
pub open spec fn fields_view(fields: Seq<(String, JsonValue)>) -> Seq<(Seq<char>, JsonView)> {
    Seq::new(
        fields.len(),
        |i: int|
            if 0 <= i < fields.len() {
                (fields[i].0@, fields[i].1.view())
            } else {
                (Seq::empty(), JsonView::Null)
            },
    )
}

/// Whether no two fields bear the same name.
pub open spec fn distinct_keys(fields: Seq<(Seq<char>, JsonView)>) -> bool {
    forall|i: int, j: int| 0 <= i < j < fields.len() ==> fields[i].0 != fields[j].0
}

impl JsonView {
    /// Whether the value, if it is an object, names each of its fields once.
    pub open spec fn names_fields_once(self) -> bool {
        self matches JsonView::Object(fields) ==> distinct_keys(fields)
    }
}

/// The contents of a value that may be absent.
pub open spec fn optional_view(value: Option<JsonValue>) -> Option<JsonView> {
    match value {
        Some(v) => Some(v@),
        None => None,
    }
}

/// The view of an object is the view of its fields.
pub proof fn lemma_object_view(fields: Vec<(String, JsonValue)>)
    ensures
        JsonValue::Object(fields)@ == JsonView::Object(fields_view(fields@)),
{
    assert(JsonValue::Object(fields)@->Object_0 =~= fields_view(fields@));
}

/// The type of `serde_json`'s decoded values, which the decoder hands to the
/// conversion below. Nothing is known of what such a value holds.
#[verifier::external_type_specification]
#[verifier::external_body]
pub struct ExDecodedValue(serde_json::Value);

/// What decoding `text` as one JSON document yields: the value, or nothing
/// where `text` is not a JSON document in UTF-8.
pub uninterp spec fn json_decoded(text: Seq<u8>) -> Option<JsonView>;

/// Turns a value of `serde_json` into a [`JsonValue`], variant by variant. A
/// number becomes the text that `serde_json` prints for it.
#[verifier::external_body]
fn from_decoded(value: serde_json::Value) -> JsonValue {
    match value {
        serde_json::Value::Null => JsonValue::Null,
        serde_json::Value::Bool(b) => JsonValue::Bool(b),
        serde_json::Value::Number(n) => JsonValue::Number(n.to_string()),
        serde_json::Value::String(s) => JsonValue::Text(s),
        serde_json::Value::Array(items) => JsonValue::Array(
            items.into_iter().map(from_decoded).collect(),
        ),
        serde_json::Value::Object(fields) => JsonValue::Object(
            fields.into_iter().map(|field| (field.0, from_decoded(field.1))).collect(),
        ),
    }
}

/// Decodes one JSON document with `serde_json::from_slice`. Trusted: the
/// outcome depends on the bytes alone; it is the decoded value when the
/// decoder reports success and nothing when it reports an error. A decoded
/// object is a map of `serde_json`, so it names each of its fields once.
#[verifier::external_body]
pub(crate) fn decode(text: &[u8]) -> (value: Option<JsonValue>)
    ensures
        match value {
            Some(v) => json_decoded(text@) == Some(v@) && v@.names_fields_once(),
            None => json_decoded(text@) is None,
        },
{
    match serde_json::from_slice::<serde_json::Value>(text) {
        Ok(decoded) => Some(from_decoded(decoded)),
        Err(_) => None,
    }
}

} // verus!
