//! A loosely typed JSON value, as the verifier reads it before it checks
//! any field.
//!
//! JSON text is parsed by `serde_json`. The parsed value is copied into a
//! type of this library, in which numbers keep the text they were written
//! with, so that every later step works on plain values and is verified.

use crate::bytes::text_equal;
use vstd::prelude::*;

verus! {

/// A JSON value.
#[derive(Debug, PartialEq, Eq)]
pub enum JsonValue {
    Null,
    Bool(bool),
    /// A number, held as its text.
    Number(String),
    Text(String),
    Array(Vec<JsonValue>),
    /// An object: its members, each key once. The parser lists them in
    /// ascending order of their keys.
    Object(Vec<(String, JsonValue)>),
}

/// The mathematical value of a `JsonValue`.
pub enum JsonModel {
    Null,
    Bool(bool),
    Number(Seq<char>),
    Text(Seq<char>),
    Array(Seq<JsonModel>),
    Object(Seq<(Seq<char>, JsonModel)>),
}

impl View for JsonValue {
    type V = JsonModel;

    open spec fn view(&self) -> JsonModel
        decreases self,
    {
        match self {
            JsonValue::Null => JsonModel::Null,
            JsonValue::Bool(b) => JsonModel::Bool(*b),
            JsonValue::Number(text) => JsonModel::Number(text@),
            JsonValue::Text(text) => JsonModel::Text(text@),
            JsonValue::Array(items) => JsonModel::Array(
                Seq::new(
                    items.len() as nat,
                    |i: int|
                        if 0 <= i < items.len() {
                            items[i]@
                        } else {
                            JsonModel::Null
                        },
                ),
            ),
            JsonValue::Object(members) => JsonModel::Object(
                Seq::new(
                    members.len() as nat,
                    |i: int|
                        if 0 <= i < members.len() {
                            (members[i].0@, members[i].1@)
                        } else {
                            (Seq::empty(), JsonModel::Null)
                        },
                ),
            ),
        }
    }
}

/// The value of the first member with the given key.
pub open spec fn member(members: Seq<(Seq<char>, JsonModel)>, key: Seq<char>) -> Option<
    JsonModel,
>
    decreases members.len(),
{
    if members.len() == 0 {
        None
    } else if members[0].0 == key {
        Some(members[0].1)
    } else {
        member(members.drop_first(), key)
    }
}

impl JsonModel {
    /// The member `key` of an object; `None` for anything but an object and
    /// for an object without that member.
    pub open spec fn field(self, key: Seq<char>) -> Option<JsonModel> {
        match self {
            JsonModel::Object(members) => member(members, key),
            _ => None,
        }
    }

    /// The text of a string; `None` for anything else.
    pub open spec fn text(self) -> Option<Seq<char>> {
        match self {
            JsonModel::Text(text) => Some(text),
            _ => None,
        }
    }

    /// The text of a number; `None` for anything else.
    pub open spec fn number(self) -> Option<Seq<char>> {
        match self {
            JsonModel::Number(text) => Some(text),
            _ => None,
        }
    }

    /// The items of an array; `None` for anything else.
    pub open spec fn items(self) -> Option<Seq<JsonModel>> {
        match self {
            JsonModel::Array(items) => Some(items),
            _ => None,
        }
    }
}

/// The value of an optional JSON value.
pub open spec fn value_view(value: Option<JsonValue>) -> Option<JsonModel> {
    match value {
        Some(v) => Some(v@),
        None => None,
    }
}

/// The value of an optional reference to a JSON value.
pub open spec fn ref_view(value: Option<&JsonValue>) -> Option<JsonModel> {
    match value {
        Some(v) => Some(v@),
        None => None,
    }
}

/// The JSON value that a text stands for; `None` where the text is not one
/// well-formed JSON value.
pub uninterp spec fn json_document(text: Seq<u8>) -> Option<JsonModel>;

/// Declares `serde_json::Value`, the parser's own value type, as an opaque
/// type: nothing inside it is visible to the proofs.
#[verifier::external_type_specification]
#[verifier::external_body]
pub struct ExSerdeValue(serde_json::Value);

/// What a value of `serde_json` holds.
pub uninterp spec fn held_value(value: serde_json::Value) -> JsonModel;

/// Calls `serde_json::from_slice` for a `serde_json::Value`. Trusted: the
/// result holds the value that the text stands for, and is `None` where the
/// parser reports an error. The parser is a function of the text alone.
#[verifier::external_body]
fn parse_with_serde(text: &[u8]) -> (value: Option<serde_json::Value>)
    ensures
        match value {
            Some(v) => json_document(text@) == Some(held_value(v)),
            None => json_document(text@) is None,
        },
{
    match serde_json::from_slice::<serde_json::Value>(text) {
        Ok(value) => Some(value),
        Err(_) => None,
    }
}

/// Copies a value of `serde_json` into a `JsonValue`, variant by variant.
/// Trusted: the copy holds what the value holds. A number is copied as the
/// text that `Number::as_str` gives, the members of an object in the order
/// in which `Map::iter` gives them, which is the ascending order of their
/// keys.
#[verifier::external_body]
fn copy_value(value: &serde_json::Value) -> (copy: JsonValue)
    ensures
        copy@ == held_value(*value),
{
    match value {
        serde_json::Value::Null => JsonValue::Null,
        serde_json::Value::Bool(b) => JsonValue::Bool(*b),
        serde_json::Value::Number(n) => JsonValue::Number(n.as_str().to_string()),
        serde_json::Value::String(s) => JsonValue::Text(s.clone()),
        serde_json::Value::Array(a) => JsonValue::Array(a.iter().map(copy_value).collect()),
        serde_json::Value::Object(m) => JsonValue::Object(
            m.iter().map(|(k, v)| (k.clone(), copy_value(v))).collect(),
        ),
    }
}

/// Parses JSON text; `None` where the text is not one well-formed JSON
/// value.
pub fn parse_json(text: &[u8]) -> (value: Option<JsonValue>)
    ensures
        value_view(value) == json_document(text@),
{
    match parse_with_serde(text) {
        Some(parsed) => Some(copy_value(&parsed)),
        None => None,
    }
}

impl JsonValue {
    /// The member `key` of an object.
    pub fn get(&self, key: &str) -> (found: Option<&JsonValue>)
        ensures
            ref_view(found) == self@.field(key@),
    {
        match self {
            JsonValue::Object(members) => {
                let ghost all = Seq::new(
                    members.len() as nat,
                    |i: int|
                        if 0 <= i < members.len() {
                            (members[i].0@, members[i].1@)
                        } else {
                            (Seq::empty(), JsonModel::Null)
                        },
                );
                let mut i: usize = 0;
                proof {
                    assert(self@ is Object);
                    assert(self@->Object_0 =~= all);
                    assert(all.skip(0) =~= all);
                }
                while i < members.len()
                    invariant
                        i <= members.len(),
                        all.len() == members.len(),
                        forall|k: int|
                            0 <= k < members.len() ==> #[trigger] all[k] == (
                                members[k].0@,
                                members[k].1@,
                            ),
                        self@.field(key@) == member(all.skip(i as int), key@),
                    decreases members.len() - i,
                {
                    proof {
                        assert(all.skip(i as int).drop_first() =~= all.skip(i + 1));
                        assert(all.skip(i as int)[0] == all[i as int]);
                    }
                    if text_equal(members[i].0.as_str(), key) {
                        return Some(&members[i].1);
                    }
                    i += 1;
                }
                None
            },
            _ => None,
        }
    }

    /// The text of a string.
    pub fn as_text(&self) -> (found: Option<&String>)
        ensures
            match found {
                Some(text) => self@.text() == Some(text@),
                None => self@.text() is None,
            },
    {
        match self {
            JsonValue::Text(text) => Some(text),
            _ => None,
        }
    }

    /// The text of a number.
    pub fn as_number(&self) -> (found: Option<&String>)
        ensures
            match found {
                Some(text) => self@.number() == Some(text@),
                None => self@.number() is None,
            },
    {
        match self {
            JsonValue::Number(text) => Some(text),
            _ => None,
        }
    }

    /// The items of an array.
    pub fn as_items(&self) -> (found: Option<&Vec<JsonValue>>)
        ensures
            match found {
                Some(items) => self@.items() == Some(item_views(items@)),
                None => self@.items() is None,
            },
    {
        match self {
            JsonValue::Array(items) => {
                proof {
                    assert(self@->Array_0 =~= item_views(items@));
                }
                Some(items)
            },
            _ => None,
        }
    }

    /// Tests for an object.
    pub fn is_object(&self) -> (yes: bool)
        ensures
            yes == (self@ is Object),
    {
        match self {
            JsonValue::Object(_) => true,
            _ => false,
        }
    }
}

/// The values of a sequence of JSON values, in the same order.
pub open spec fn item_views(items: Seq<JsonValue>) -> Seq<JsonModel> {
    Seq::new(items.len(), |i: int| items[i]@)
}

} // verus!
