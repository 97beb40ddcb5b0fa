//! JSON objects, read and written through `serde_json`.

use serde_json::Value;
use vstd::prelude::*;
use crate::text;
use crate::text::str_eq;

verus! {

/// What the logic reads of the value of a JSON object's field.
pub enum JsonField {
    Null,
    Bool(bool),
    /// The number, where it is an integer between zero and `u64::MAX`.
    Number(Option<u64>),
    Text(String),
    /// The items of an array, those that are strings.
    List(Vec<Option<String>>),
    Object,
}

/// The view of a [`JsonField`].
pub enum JsonFieldView {
    Null,
    Bool(bool),
    Number(Option<u64>),
    Text(Seq<char>),
    List(Seq<Option<Seq<char>>>),
    Object,
}

/// The view of an optional string.
pub open spec fn opt_text(s: Option<String>) -> Option<Seq<char>> {
    text::opt_view(s)
}

impl View for JsonField {
    type V = JsonFieldView;

    open spec fn view(&self) -> JsonFieldView {
        match *self {
            JsonField::Null => JsonFieldView::Null,
            JsonField::Bool(b) => JsonFieldView::Bool(b),
            JsonField::Number(n) => JsonFieldView::Number(n),
            JsonField::Text(s) => JsonFieldView::Text(s@),
            JsonField::List(items) => JsonFieldView::List(
                Seq::new(items@.len(), |i: int| opt_text(items@[i])),
            ),
            JsonField::Object => JsonFieldView::Object,
        }
    }
}

/// A scalar to write into a JSON object.
pub enum JsonScalar {
    Null,
    Text(String),
    Number(u64),
}

impl View for JsonScalar {
    type V = JsonFieldView;

    open spec fn view(&self) -> JsonFieldView {
        match *self {
            JsonScalar::Null => JsonFieldView::Null,
            JsonScalar::Text(s) => JsonFieldView::Text(s@),
            JsonScalar::Number(n) => JsonFieldView::Number(Some(n)),
        }
    }
}

/// The fields by name; of two with one name the later counts.
pub open spec fn field_map<T: View<V = JsonFieldView>>(fields: Seq<(String, T)>) -> Map<
    Seq<char>,
    JsonFieldView,
>
    decreases fields.len(),
{
    if fields.len() == 0 {
        Map::empty()
    } else {
        field_map(fields.drop_last()).insert(fields.last().0@, fields.last().1@)
    }
}

/// The fields of the JSON value that `text` is, by name: `None` where `text` is
/// not JSON, no field where it is JSON but not an object.
pub uninterp spec fn json_fields(text: Seq<char>) -> Option<Map<Seq<char>, JsonFieldView>>;

/// The text that `serde_json` writes for an object with these fields, added in
/// this order.
pub uninterp spec fn json_object_text(fields: Seq<(Seq<char>, JsonFieldView)>) -> Seq<char>;

/// Calls `serde_json::from_str`. Claims that the outcome depends on the text
/// alone, and gives the fields of the object that was read, none for another
/// JSON value, and `None` where `serde_json` reports an error.
#[verifier::external_body]
fn read_fields(text: &str) -> (r: Option<Vec<(String, JsonField)>>)
    ensures
        match r {
            Some(fields) => json_fields(text@) == Some(field_map(fields@)),
            None => json_fields(text@) is None,
        },
{
    let value: Value = serde_json::from_str(text).ok()?;
    let entries = value.as_object().cloned().unwrap_or_default();
    let convert = |v: Value| match v {
        Value::Null => JsonField::Null,
        Value::Bool(b) => JsonField::Bool(b),
        Value::Number(n) => JsonField::Number(n.as_u64()),
        Value::String(s) => JsonField::Text(s),
        Value::Array(a) => {
            JsonField::List(a.iter().map(|i| i.as_str().map(String::from)).collect())
        },
        Value::Object(_) => JsonField::Object,
    };
    Some(entries.into_iter().map(|(k, v)| (k, convert(v))).collect())
}

/// Calls `to_string` on a `serde_json::Value` that is an object with the given
/// fields. Claims that the text depends on the fields alone, and that reading
/// it gives the same fields back.
#[verifier::external_body]
fn write_fields(fields: Vec<(String, JsonScalar)>) -> (r: String)
    ensures
        r@ == json_object_text(text::views(fields@)),
        json_fields(r@) == Some(field_map(fields@)),
{
    let convert = |v: JsonScalar| match v {
        JsonScalar::Null => Value::Null,
        JsonScalar::Text(s) => Value::from(s),
        JsonScalar::Number(n) => Value::from(n),
    };
    let map: serde_json::Map<String, Value> =
        fields.into_iter().map(|(k, v)| (k, convert(v))).collect();
    Value::Object(map).to_string()
}

/// The fields of a JSON object.
pub struct JsonObject {
    pub fields: Vec<(String, JsonField)>,
}

impl View for JsonObject {
    type V = Map<Seq<char>, JsonFieldView>;

    open spec fn view(&self) -> Map<Seq<char>, JsonFieldView> {
        field_map(self.fields@)
    }
}

impl JsonObject {
    /// Reads a JSON text; another value than an object has no fields.
    pub fn parse(text: &str) -> (r: Option<JsonObject>)
        ensures
            match r {
                Some(object) => json_fields(text@) == Some(object@),
                None => json_fields(text@) is None,
            },
    {
        match read_fields(text) {
            Some(fields) => Some(JsonObject { fields }),
            None => None,
        }
    }

    /// The field with the given name.
    pub fn get(&self, key: &str) -> (r: Option<&JsonField>)
        ensures
            match r {
                Some(field) => self@.dom().contains(key@) && self@[key@] == field@,
                None => !self@.dom().contains(key@),
            },
    {
        let mut i: usize = self.fields.len();
        assert(self.fields@.take(i as int) =~= self.fields@);
        while i > 0
            invariant
                i <= self.fields@.len(),
                self@.dom().contains(key@) == field_map(self.fields@.take(i as int)).dom().contains(
                    key@,
                ),
                self@.dom().contains(key@) ==> self@[key@] == field_map(
                    self.fields@.take(i as int),
                )[key@],
            decreases i,
        {
            let ghost now = self.fields@.take(i as int);
            assert(now.drop_last() =~= self.fields@.take(i - 1));
            assert(now.last() == self.fields@[i - 1]);
            if str_eq(self.fields[i - 1].0.as_str(), key) {
                return Some(&self.fields[i - 1].1);
            }
            i = i - 1;
        }
        None
    }

    /// The field with the given name, if it is a string.
    pub fn get_text(&self, key: &str) -> (r: Option<String>)
        ensures
            text::opt_view(r) == text_field(self@, key@),
    {
        match self.get(key) {
            Some(JsonField::Text(s)) => Some(s.clone()),
            _ => None,
        }
    }

    /// The field with the given name, if it is an integer between zero and
    /// `u64::MAX`.
    pub fn get_number(&self, key: &str) -> (r: Option<u64>)
        ensures
            r == number_field(self@, key@),
    {
        match self.get(key) {
            Some(JsonField::Number(n)) => *n,
            _ => None,
        }
    }
}

/// The string under `key`.
pub open spec fn text_field(fields: Map<Seq<char>, JsonFieldView>, key: Seq<char>) -> Option<
    Seq<char>,
> {
    if fields.dom().contains(key) {
        match fields[key] {
            JsonFieldView::Text(s) => Some(s),
            _ => None,
        }
    } else {
        None
    }
}

/// The number under `key`.
pub open spec fn number_field(fields: Map<Seq<char>, JsonFieldView>, key: Seq<char>) -> Option<
    u64,
> {
    if fields.dom().contains(key) {
        match fields[key] {
            JsonFieldView::Number(n) => n,
            _ => None,
        }
    } else {
        None
    }
}

/// The JSON text of an object with the given fields.
pub fn object_text(fields: Vec<(String, JsonScalar)>) -> (r: String)
    ensures
        r@ == json_object_text(text::views(fields@)),
        json_fields(r@) == Some(field_map(fields@)),
{
    write_fields(fields)
}

} // verus!
