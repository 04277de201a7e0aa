//! JSON documents as plain values, and the few questions that the manifest
//! rules ask of them.  Parsing itself is done by `serde_json`.

use crate::text::{chars_of, same_chars};
use vstd::prelude::*;

verus! {

/// A JSON document.
#[derive(Debug, PartialEq, Eq)]
pub enum JsonValue {
    Null,
    Bool(bool),
    /// A number, kept as the text that `serde_json` prints for it.
    Number(String),
    Text(String),
    Array(Vec<JsonValue>),
    /// The members of an object, each key once.
    Object(Vec<(String, JsonValue)>),
}

/// The document type of `serde_json`, known here by name only.
#[verifier::external_type_specification]
#[verifier::external_body]
pub struct ExSerdeJsonValue(serde_json::Value);

/// What `serde_json::from_str` makes of a text, written as a [`JsonValue`];
/// `None` where it rejects the text.
pub uninterp spec fn parsed_json(text: Seq<char>) -> Option<JsonValue>;

/// Rewrites a `serde_json::Value` as a [`JsonValue`], variant by variant.
/// Nothing is claimed of the result here; [`parse_json`] gives it its name.
#[verifier::external_body]
fn json_value_from(value: &serde_json::Value) -> JsonValue {
    match value {
        serde_json::Value::Null => JsonValue::Null,
        serde_json::Value::Bool(b) => JsonValue::Bool(*b),
        serde_json::Value::Number(n) => JsonValue::Number(n.to_string()),
        serde_json::Value::String(s) => JsonValue::Text(s.clone()),
        serde_json::Value::Array(items) => JsonValue::Array(
            items.iter().map(json_value_from).collect(),
        ),
        serde_json::Value::Object(members) => JsonValue::Object(
            members.iter().map(|(k, v)| (k.clone(), json_value_from(v))).collect(),
        ),
    }
}

/// Calls `serde_json::from_str` for a `serde_json::Value`.  The contract
/// claims only that the outcome depends on the text alone: it is the value
/// that [`parsed_json`] names, and `None` stands for any parse error.
#[verifier::external_body]
pub(crate) fn parse_json(text: &str) -> (doc: Option<JsonValue>)
    ensures
        doc == parsed_json(text@),
{
    match serde_json::from_str::<serde_json::Value>(text) {
        Ok(value) => Some(json_value_from(&value)),
        Err(_) => None,
    }
}

/// The value of the first member named `key` among `members`.
pub open spec fn member_among(members: Seq<(String, JsonValue)>, key: Seq<char>) -> Option<
    JsonValue,
>
    decreases members.len(),
{
    if members.len() == 0 {
        None
    } else if members[0].0@ == key {
        Some(members[0].1)
    } else {
        member_among(members.drop_first(), key)
    }
}

/// The strings among `items`, in order; items of other kinds are passed over.
pub open spec fn texts_among(items: Seq<JsonValue>) -> Seq<Seq<char>>
    decreases items.len(),
{
    if items.len() == 0 {
        Seq::<Seq<char>>::empty()
    } else {
        let before = texts_among(items.drop_last());
        match items.last() {
            JsonValue::Text(s) => before.push(s@),
            _ => before,
        }
    }
}

impl JsonValue {
    /// The member named `key`, where this is an object that has one.
    pub open spec fn member(self, key: Seq<char>) -> Option<JsonValue> {
        match self {
            JsonValue::Object(members) => member_among(members@, key),
            _ => None,
        }
    }

    /// Whether this is an object with a member named `key`.
    pub open spec fn has(self, key: Seq<char>) -> bool {
        self.member(key) is Some
    }

    /// The characters of this value, where it is a string.
    pub open spec fn text(self) -> Option<Seq<char>> {
        match self {
            JsonValue::Text(s) => Some(s@),
            _ => None,
        }
    }

    /// The items of this value, where it is an array; else none.
    pub open spec fn items(self) -> Seq<JsonValue> {
        match self {
            JsonValue::Array(items) => items@,
            _ => Seq::<JsonValue>::empty(),
        }
    }

    /// The strings among the items of this value.
    pub open spec fn texts(self) -> Seq<Seq<char>> {
        texts_among(self.items())
    }

    /// Computes [`JsonValue::member`].
    pub fn get(&self, key: &str) -> (found: Option<&JsonValue>)
        ensures
            match found {
                Some(value) => self.member(key@) == Some(*value),
                None => self.member(key@) is None,
            },
    {
        match self {
            JsonValue::Object(members) => {
                let wanted = chars_of(key);
                let mut i: usize = 0;
                assert(members@.skip(0) == members@);
                while i < members.len()
                    invariant
                        i <= members.len(),
                        wanted@ == key@,
                        *self matches JsonValue::Object(m) && m == *members,
                        member_among(members@, key@) == member_among(members@.skip(i as int), key@),
                    decreases members.len() - i,
                {
                    let name = chars_of(members[i].0.as_str());
                    assert(members@.skip(i as int)[0] == members@[i as int]);
                    if same_chars(&name, &wanted) {
                        return Some(&members[i].1);
                    }
                    assert(members@.skip(i as int).drop_first() == members@.skip(i + 1));
                    i += 1;
                }
                None
            },
            _ => None,
        }
    }

    /// Computes [`JsonValue::has`].
    pub fn has_member(&self, key: &str) -> (found: bool)
        ensures
            found == self.has(key@),
    {
        self.get(key).is_some()
    }

    /// Computes [`JsonValue::text`].
    pub fn as_text(&self) -> (chars: Option<Vec<char>>)
        ensures
            match chars {
                Some(c) => self.text() == Some(c@),
                None => self.text() is None,
            },
    {
        match self {
            JsonValue::Text(s) => Some(chars_of(s.as_str())),
            _ => None,
        }
    }

    /// Computes [`JsonValue::texts`].
    pub fn text_items(&self) -> (found: Vec<Vec<char>>)
        ensures
            crate::text::views(found@) == self.texts(),
    {
        let mut found: Vec<Vec<char>> = Vec::new();
        match self {
            JsonValue::Array(items) => {
                let mut i: usize = 0;
                while i < items.len()
                    invariant
                        i <= items.len(),
                        crate::text::views(found@) == texts_among(items@.take(i as int)),
                    decreases items.len() - i,
                {
                    assert(items@.take(i + 1).drop_last() == items@.take(i as int));
                    match &items[i] {
                        JsonValue::Text(s) => {
                            let chars = chars_of(s.as_str());
                            assert(crate::text::views(found@.push(chars)) == crate::text::views(
                                found@,
                            ).push(chars@));
                            found.push(chars);
                        },
                        _ => {},
                    }
                    i += 1;
                }
                assert(items@.take(items.len() as int) == items@);
            },
            _ => {},
        }
        found
    }
}

/// [`JsonValue::member`] of a value that may be absent.
pub open spec fn member_of(doc: Option<JsonValue>, key: Seq<char>) -> Option<JsonValue> {
    match doc {
        Some(value) => value.member(key),
        None => None,
    }
}

} // verus!
