//! JSON documents as plain values, with `serde_json` reading and writing them.

use crate::text::same_text;
use crate::views::views;
use serde_json::Value;
use vstd::prelude::*;
use vstd::utf8::encode_utf8;

verus! {

/// A JSON number: a non-negative integer, a negative integer, or the spelling
/// of anything else.
#[derive(Debug, PartialEq, Eq)]
pub enum JsonNumber {
    Unsigned(u64),
    Negative(i64),
    Other(String),
}

/// A JSON document.
#[derive(Debug, PartialEq, Eq)]
pub enum Json {
    Null,
    Bool(bool),
    Number(JsonNumber),
    Text(String),
    List(Vec<Json>),
    Object(Vec<(String, Json)>),
}

/// What a JSON document says; the order of an object's fields does not matter.
#[verifier::ext_equal]
pub enum JsonView {
    Null,
    Bool(bool),
    Unsigned(u64),
    Negative(i64),
    OtherNumber(Seq<char>),
    Text(Seq<char>),
    List(Seq<JsonView>),
    Object(Map<Seq<char>, JsonView>),
}

/// The place of the last field named `key`, or -1.
pub open spec fn field_place(fields: Seq<(String, Json)>, key: Seq<char>) -> int
    decreases fields.len(),
{
    if fields.len() == 0 {
        -1
    } else if fields.last().0@ == key {
        fields.len() - 1
    } else {
        field_place(fields.drop_last(), key)
    }
}

/// The value of a document.
pub open spec fn json_view(json: Json) -> JsonView
    decreases json,
{
    match json {
        Json::Null => JsonView::Null,
        Json::Bool(value) => JsonView::Bool(value),
        Json::Number(JsonNumber::Unsigned(value)) => JsonView::Unsigned(value),
        Json::Number(JsonNumber::Negative(value)) => JsonView::Negative(value),
        Json::Number(JsonNumber::Other(text)) => JsonView::OtherNumber(text@),
        Json::Text(text) => JsonView::Text(text@),
        Json::List(items) => JsonView::List(
            Seq::new(
                items@.len(),
                |i: int|
                    if 0 <= i < items@.len() {
                        json_view(items@[i])
                    } else {
                        JsonView::Null
                    },
            ),
        ),
        Json::Object(fields) => JsonView::Object(
            Map::new(
                |key: Seq<char>| field_place(fields@, key) >= 0,
                |key: Seq<char>|
                    {
                        let i = field_place(fields@, key);
                        if 0 <= i < fields@.len() {
                            json_view(fields@[i].1)
                        } else {
                            JsonView::Null
                        }
                    },
            ),
        ),
    }
}

impl View for Json {
    type V = JsonView;

    open spec fn view(&self) -> JsonView {
        json_view(*self)
    }
}

/// The value of an object with these fields.
pub open spec fn fields_view(fields: Seq<(String, Json)>) -> Map<Seq<char>, JsonView> {
    Map::new(
        |key: Seq<char>| field_place(fields, key) >= 0,
        |key: Seq<char>| fields[field_place(fields, key)].1@,
    )
}

proof fn field_place_in_range(fields: Seq<(String, Json)>, key: Seq<char>)
    ensures
        -1 <= field_place(fields, key) < fields.len(),
        field_place(fields, key) >= 0 ==> fields[field_place(fields, key)].0@ == key,
    decreases fields.len(),
{
    if fields.len() > 0 && fields.last().0@ != key {
        field_place_in_range(fields.drop_last(), key);
    }
}

/// The value of an object or a list follows from the values of its parts.
pub proof fn document_value(json: Json)
    ensures
        json matches Json::List(items) ==> json@ == JsonView::List(views(items@)),
        json matches Json::Object(fields) ==> json@ == JsonView::Object(fields_view(fields@)),
{
    match json {
        Json::List(items) => {
            assert(json@->List_0 =~= views(items@));
        },
        Json::Object(fields) => {
            assert forall|key: Seq<char>| true implies #[trigger] field_place(fields@, key) < fields@.len() by {
                field_place_in_range(fields@, key);
            }
            assert(json@->Object_0 =~= fields_view(fields@));
        },
        _ => {},
    }
}

/// Builds an object field by field.
pub struct JsonObject {
    fields: Vec<(String, Json)>,
}

impl View for JsonObject {
    type V = Map<Seq<char>, JsonView>;

    closed spec fn view(&self) -> Map<Seq<char>, JsonView> {
        fields_view(self.fields@)
    }
}

impl JsonObject {
    /// An object without fields.
    pub fn new() -> (object: Self)
        ensures
            object@ == Map::<Seq<char>, JsonView>::empty(),
    {
        let object = JsonObject { fields: Vec::new() };
        assert(object@ =~= Map::<Seq<char>, JsonView>::empty());
        object
    }

    /// Sets one field.
    pub fn with(self, key: &str, value: Json) -> (object: Self)
        ensures
            object@ == self@.insert(key@, value@),
    {
        let ghost before = self.fields@;
        let mut fields = self.fields;
        fields.push((key.to_owned(), value));
        proof {
            assert(fields@.drop_last() =~= before);
            assert forall|k: Seq<char>| true implies #[trigger] field_place(before, k) < before.len() by {
                field_place_in_range(before, k);
            }
            assert(fields_view(fields@) =~= fields_view(before).insert(key@, value@));
        }
        JsonObject { fields }
    }

    /// Sets one field if there is a value for it.
    pub fn with_some(self, key: &str, value: Option<Json>) -> (object: Self)
        ensures
            object@ == match value {
                Some(json) => self@.insert(key@, json@),
                None => self@,
            },
    {
        match value {
            Some(json) => self.with(key, json),
            None => self,
        }
    }

    /// The finished document.
    pub fn done(self) -> (json: Json)
        ensures
            json@ == JsonView::Object(self@),
    {
        let json = Json::Object(self.fields);
        proof {
            document_value(json);
        }
        json
    }
}

/// The field `key` of an object; nothing for any other document.
pub open spec fn json_field(json: JsonView, key: Seq<char>) -> Option<JsonView> {
    match json {
        JsonView::Object(fields) => if fields.dom().contains(key) {
            Some(fields[key])
        } else {
            None
        },
        _ => None,
    }
}

impl Json {
    /// The field `key`, if this is an object that has it.
    pub fn field(&self, key: &str) -> (value: Option<&Json>)
        ensures
            value matches Some(json) ==> json_field(self@, key@) == Some(json@),
            value is None ==> json_field(self@, key@) is None,
    {
        proof {
            document_value(*self);
        }
        match self {
            Json::Object(fields) => {
                let mut i: usize = fields.len();
                assert(fields@.take(i as int) =~= fields@);
                while i > 0
                    invariant
                        i <= fields@.len(),
                        field_place(fields@, key@) == field_place(fields@.take(i as int), key@),
                        *self == Json::Object(*fields),
                        self@ == JsonView::Object(fields_view(fields@)),
                    decreases i,
                {
                    assert(fields@.take(i as int).drop_last() =~= fields@.take(i - 1));
                    i -= 1;
                    if same_text(fields[i].0.as_str(), key) {
                        return Some(&fields[i].1);
                    }
                }
                None
            },
            _ => None,
        }
    }

    /// The text, if this is one.
    pub fn as_text(&self) -> (text: Option<&String>)
        ensures
            text matches Some(value) ==> self@ == JsonView::Text(value@),
            text is None ==> !(self@ is Text),
    {
        match self {
            Json::Text(value) => Some(value),
            _ => None,
        }
    }

    /// The number, if this is an integer that is not negative.
    pub fn as_unsigned(&self) -> (number: Option<u64>)
        ensures
            number matches Some(value) ==> self@ == JsonView::Unsigned(value),
            number is None ==> !(self@ is Unsigned),
    {
        match self {
            Json::Number(JsonNumber::Unsigned(value)) => Some(*value),
            _ => None,
        }
    }

    /// The truth value, if this is one.
    pub fn as_bool(&self) -> (truth: Option<bool>)
        ensures
            truth matches Some(value) ==> self@ == JsonView::Bool(value),
            truth is None ==> !(self@ is Bool),
    {
        match self {
            Json::Bool(value) => Some(*value),
            _ => None,
        }
    }

    /// The items, if this is a list.
    pub fn as_list(&self) -> (items: Option<&Vec<Json>>)
        ensures
            items matches Some(list) ==> self@ == JsonView::List(views(list@)),
            items is None ==> !(self@ is List),
    {
        proof {
            document_value(*self);
        }
        match self {
            Json::List(items) => Some(items),
            _ => None,
        }
    }

    pub fn is_object(&self) -> (r: bool)
        ensures
            r == (self@ is Object),
    {
        match self {
            Json::Object(_) => true,
            _ => false,
        }
    }

    pub fn is_null(&self) -> (r: bool)
        ensures
            r == (self@ is Null),
    {
        match self {
            Json::Null => true,
            _ => false,
        }
    }

    /// A text document.
    pub fn text(text: &str) -> (json: Json)
        ensures
            json@ == JsonView::Text(text@),
    {
        Json::Text(text.to_owned())
    }

    /// A number document.
    pub fn unsigned(number: u64) -> (json: Json)
        ensures
            json@ == JsonView::Unsigned(number),
    {
        Json::Number(JsonNumber::Unsigned(number))
    }

    /// A list document.
    pub fn list(items: Vec<Json>) -> (json: Json)
        ensures
            json@ == JsonView::List(views(items@)),
    {
        let json = Json::List(items);
        proof {
            document_value(json);
        }
        json
    }

    /// The same document once more.
    pub fn copied(&self) -> (json: Json)
        ensures
            json@ == self@,
        decreases self,
    {
        match self {
            Json::Null => Json::Null,
            Json::Bool(value) => Json::Bool(*value),
            Json::Number(JsonNumber::Unsigned(value)) => Json::Number(JsonNumber::Unsigned(*value)),
            Json::Number(JsonNumber::Negative(value)) => Json::Number(JsonNumber::Negative(*value)),
            Json::Number(JsonNumber::Other(text)) => Json::Number(JsonNumber::Other(text.clone())),
            Json::Text(text) => Json::Text(text.clone()),
            Json::List(items) => {
                let mut list: Vec<Json> = Vec::new();
                let mut i: usize = 0;
                while i < items.len()
                    invariant
                        i <= items@.len(),
                        *self == Json::List(*items),
                        list@.len() == i,
                        forall|j: int| 0 <= j < i ==> (#[trigger] list@[j])@ == items@[j]@,
                    decreases items@.len() - i,
                {
                    assert(decreases_to!(*self => self->List_0));
                    assert(decreases_to!(*items => items[i as int]));
                    list.push(items[i].copied());
                    i += 1;
                }
                let json = Json::List(list);
                proof {
                    document_value(*self);
                    document_value(json);
                    assert(views(list@) =~= views(items@));
                }
                json
            },
            Json::Object(fields) => {
                let mut list: Vec<(String, Json)> = Vec::new();
                let mut i: usize = 0;
                while i < fields.len()
                    invariant
                        i <= fields@.len(),
                        *self == Json::Object(*fields),
                        list@.len() == i,
                        forall|j: int| 0 <= j < i ==> (#[trigger] list@[j]).0@ == fields@[j].0@ && list@[j].1@ == fields@[j].1@,
                    decreases fields@.len() - i,
                {
                    assert(decreases_to!(*self => self->Object_0));
                    assert(decreases_to!(*fields => fields[i as int]));
                    assert(decreases_to!(fields[i as int] => fields[i as int].1));
                    let entry = (fields[i].0.clone(), fields[i].1.copied());
                    list.push(entry);
                    i += 1;
                }
                let json = Json::Object(list);
                proof {
                    document_value(*self);
                    document_value(json);
                    assert forall|key: Seq<char>| true implies #[trigger] field_place(list@, key) == field_place(fields@, key) by {
                        same_places(list@, fields@, key);
                        field_place_in_range(fields@, key);
                    }
                    assert forall|key: Seq<char>| true implies #[trigger] field_place(list@, key) < fields@.len() by {
                        field_place_in_range(list@, key);
                    }
                    assert(fields_view(list@) =~= fields_view(fields@));
                }
                json
            },
        }
    }
}

proof fn same_places(a: Seq<(String, Json)>, b: Seq<(String, Json)>, key: Seq<char>)
    requires
        a.len() == b.len(),
        forall|j: int| 0 <= j < a.len() ==> (#[trigger] a[j]).0@ == b[j].0@,
    ensures
        field_place(a, key) == field_place(b, key),
    decreases a.len(),
{
    if a.len() > 0 {
        assert(a.last() == a[a.len() - 1]);
        same_places(a.drop_last(), b.drop_last(), key);
    }
}

/// The parsed value of `serde_json`, carried from its reader into this
/// library's documents and back.
#[verifier::external_type_specification]
#[verifier::external_body]
pub struct ExValue(serde_json::Value);

/// Converts a parsed `serde_json` value one for one.
#[verifier::external_body]
fn json_of_value(value: Value) -> Json {
    match value {
        Value::Null => Json::Null,
        Value::Bool(truth) => Json::Bool(truth),
        Value::Number(number) => match (number.as_u64(), number.as_i64()) {
            (Some(n), _) => Json::Number(JsonNumber::Unsigned(n)),
            (None, Some(n)) => Json::Number(JsonNumber::Negative(n)),
            (None, None) => Json::Number(JsonNumber::Other(number.to_string())),
        },
        Value::String(text) => Json::Text(text),
        Value::Array(items) => Json::List(items.into_iter().map(json_of_value).collect()),
        Value::Object(map) => Json::Object(map.into_iter().map(|(k, v)| (k, json_of_value(v))).collect()),
    }
}

/// Converts a document into a `serde_json` value one for one.
#[verifier::external_body]
fn value_of_json(json: &Json) -> Value {
    match json {
        Json::Null => Value::Null,
        Json::Bool(truth) => Value::Bool(*truth),
        Json::Number(JsonNumber::Unsigned(n)) => Value::from(*n),
        Json::Number(JsonNumber::Negative(n)) => Value::from(*n),
        Json::Number(JsonNumber::Other(text)) => serde_json::from_str(text).unwrap_or(Value::Null),
        Json::Text(text) => Value::String(text.clone()),
        Json::List(items) => Value::Array(items.iter().map(value_of_json).collect()),
        Json::Object(fields) => Value::Object(fields.iter().fold(serde_json::Map::new(), |mut map, (k, v)| {
            map.insert(k.clone(), value_of_json(v));
            map
        })),
    }
}

/// The one JSON document that these bytes spell, or why they do not spell one.
pub uninterp spec fn json_parsed(bytes: Seq<u8>) -> Result<JsonView, Seq<char>>;

/// The compact spelling of a document.
pub uninterp spec fn json_bytes(json: JsonView) -> Seq<u8>;

/// The text that these bytes spell, if they are one JSON string.
pub open spec fn json_string_parsed(bytes: Seq<u8>) -> Option<Seq<char>> {
    match json_parsed(bytes) {
        Ok(JsonView::Text(text)) => Some(text),
        _ => None,
    }
}

/// A document of integers, texts, truth values, lists and objects that nests
/// at most `depth` lists and objects.
pub open spec fn plain_within(json: JsonView, depth: nat) -> bool
    decreases depth,
{
    match json {
        JsonView::OtherNumber(_) => false,
        JsonView::Negative(n) => n < 0,
        JsonView::List(items) => depth > 0 && forall|i: int| 0 <= i < items.len() ==> plain_within(#[trigger] items[i], (depth - 1) as nat),
        JsonView::Object(fields) => depth > 0 && forall|key: Seq<char>| #[trigger] fields.dom().contains(key) ==> plain_within(fields[key], (depth - 1) as nat),
        _ => true,
    }
}

/// How deep a document may nest and still be read back.
pub const MAX_NESTING: u64 = 127;

/// Reading `bytes` gives `json`.
pub open spec fn spells(bytes: Seq<u8>, json: JsonView) -> bool {
    json_parsed(bytes) matches Ok(document) && document == json
}

/// Text of printable ASCII characters that a spelling shows as they are.
pub open spec fn shown_as_is(text: Seq<char>) -> bool {
    forall|i: int| 0 <= i < text.len() ==> ' ' <= #[trigger] text[i] <= '~' && text[i] != '"' && text[i] != '\\'
}

/// The most bytes that a text takes between its quotes: an escape has six for
/// one.
pub open spec fn most_bytes(text: Seq<char>) -> int {
    if shown_as_is(text) {
        encode_utf8(text).len() as int
    } else {
        6 * encode_utf8(text).len() as int
    }
}

/// A change of a document in up to two fields of each object.
pub enum Edit {
    /// Nothing changes.
    Same,
    /// A text becomes another text.
    Text(Seq<char>),
    /// A list becomes the empty list.
    Emptied,
    /// Two fields of an object change.
    Fields(Seq<char>, Box<Edit>, Seq<char>, Box<Edit>),
}

/// The changed document, and by how many bytes at most its spelling is longer.
pub open spec fn edited(json: JsonView, edit: Edit) -> Option<(JsonView, int)>
    decreases edit,
{
    match (edit, json) {
        (Edit::Same, _) => Some((json, 0)),
        (Edit::Text(new), JsonView::Text(old)) => Some((JsonView::Text(new), most_bytes(new) - encode_utf8(old).len())),
        (Edit::Emptied, JsonView::List(_)) => Some((JsonView::List(Seq::empty()), 0)),
        (Edit::Fields(p, a, q, b), JsonView::Object(fields)) => if p != q && fields.dom().contains(p) && fields.dom().contains(q) {
            match (edited(fields[p], *a), edited(fields[q], *b)) {
                (Some(x), Some(y)) => Some((JsonView::Object(fields.insert(p, x.0).insert(q, y.0)), x.1 + y.1)),
                _ => None,
            }
        } else {
            None
        },
        _ => None,
    }
}

/// The spelling of a changed document is no longer than the change allows.
pub open spec fn edits_are_bounded(bytes: Seq<u8>, json: JsonView) -> bool {
    forall|edit: Edit| (#[trigger] edited(json, edit)) matches Some(change) ==> json_bytes(change.0).len() <= bytes.len() + change.1
}

/// The result of a parse, by value.
pub open spec fn parse_view(result: Result<Json, String>) -> Result<JsonView, Seq<char>> {
    match result {
        Ok(json) => Ok(json@),
        Err(message) => Err(message@),
    }
}

/// An optional text, by value.
pub open spec fn text_view(text: Option<String>) -> Option<Seq<char>> {
    match text {
        Some(value) => Some(value@),
        None => None,
    }
}

/// `serde_json::from_slice` into a `serde_json::Value`, which reads exactly one
/// document and nothing after it but white space. The document, or the text of
/// the error, is a function of the bytes alone.
#[verifier::external_body]
pub(crate) fn parse_json(bytes: &[u8]) -> (result: Result<Json, String>)
    ensures
        parse_view(result) == json_parsed(bytes@),
{
    match serde_json::from_slice::<serde_json::Value>(bytes) {
        Ok(value) => Ok(json_of_value(value)),
        Err(error) => Err(error.to_string()),
    }
}

/// `serde_json::to_vec` of a `serde_json::Value`, which writes the compact
/// spelling of a document. It holds no line break: inside strings control
/// characters are escaped. Reading it gives back the document, where that
/// holds integers only and nests no deeper than the reader's limit. Every part
/// of a document is spelled by itself: a text by its bytes between quotes, six
/// for one at most where they are escaped, and an empty list by two brackets.
/// So a change of some parts changes the length by what those parts take.
#[verifier::external_body]
pub(crate) fn encode_json(json: &Json) -> (bytes: Vec<u8>)
    ensures
        bytes@ == json_bytes(json@),
        !bytes@.contains(10u8),
        plain_within(json@, MAX_NESTING as nat) ==> spells(bytes@, json@),
        edits_are_bounded(bytes@, json@),
{
    serde_json::to_vec(&value_of_json(json)).unwrap_or_default()
}

/// The text that the bytes spell as one JSON string, or nothing.
pub(crate) fn parse_json_string(bytes: &[u8]) -> (text: Option<String>)
    ensures
        text_view(text) == json_string_parsed(bytes@),
{
    match parse_json(bytes) {
        Ok(Json::Text(text)) => Some(text),
        _ => None,
    }
}

} // verus!
