//! JSON documents: what they hold, how they are read from text and how they are written.

use crate::text;
use crate::text::same_text;
use vstd::prelude::*;
use vstd::string::*;

verus! {

/// A number of `serde_json`.
#[verifier::external_type_specification]
#[verifier::external_body]
pub struct ExNumber(serde_json::Number);

/// A JSON number. A number that is no 64-bit integer is kept as it was read.
pub enum JsonNumber {
    PosInt(u64),
    NegInt(i64),
    Float(serde_json::Number),
}

/// A JSON document. In an object that was read from text, the fields are in the order in which
/// `serde_json` keeps them, which is that of their names, and no name occurs twice. An object that
/// is written comes out in that order too.
pub enum Json {
    Null,
    Bool(bool),
    Number(JsonNumber),
    Text(String),
    Array(Vec<Json>),
    Object(Vec<(String, Json)>),
}

/// The mathematical content of a [`JsonNumber`].
pub enum NumberModel {
    PosInt(u64),
    NegInt(i64),
    Float(serde_json::Number),
}

/// The mathematical content of a [`Json`] document.
pub enum JsonModel {
    Null,
    Bool(bool),
    Number(NumberModel),
    Text(Seq<char>),
    Array(Seq<JsonModel>),
    Object(Seq<(Seq<char>, JsonModel)>),
}

impl View for JsonNumber {
    type V = NumberModel;

    open spec fn view(&self) -> NumberModel {
        match self {
            JsonNumber::PosInt(n) => NumberModel::PosInt(*n),
            JsonNumber::NegInt(n) => NumberModel::NegInt(*n),
            JsonNumber::Float(n) => NumberModel::Float(*n),
        }
    }
}

impl Json {
    /// The mathematical content of the document.
    pub open spec fn model(self) -> JsonModel
        decreases self,
    {
        match self {
            Json::Null => JsonModel::Null,
            Json::Bool(b) => JsonModel::Bool(b),
            Json::Number(n) => JsonModel::Number(n@),
            Json::Text(s) => JsonModel::Text(s@),
            Json::Array(items) => JsonModel::Array(
                Seq::new(
                    items@.len(),
                    |i: int|
                        if 0 <= i < items@.len() {
                            items@[i].model()
                        } else {
                            JsonModel::Null
                        },
                ),
            ),
            Json::Object(fields) => JsonModel::Object(
                Seq::new(
                    fields@.len(),
                    |i: int|
                        if 0 <= i < fields@.len() {
                            (fields@[i].0@, fields@[i].1.model())
                        } else {
                            (Seq::empty(), JsonModel::Null)
                        },
                ),
            ),
        }
    }
}

impl View for Json {
    type V = JsonModel;

    open spec fn view(&self) -> JsonModel {
        self.model()
    }
}

/// The value of the first field named `key`.
pub open spec fn first_field(fields: Seq<(Seq<char>, JsonModel)>, key: Seq<char>) -> Option<JsonModel>
    decreases fields.len(),
{
    if fields.len() == 0 {
        None
    } else if fields[0].0 == key {
        Some(fields[0].1)
    } else {
        first_field(fields.skip(1), key)
    }
}

impl JsonModel {
    /// The value of a field; nothing if it is missing or this is no object.
    pub open spec fn field(self, key: Seq<char>) -> Option<JsonModel> {
        match self {
            JsonModel::Object(fields) => first_field(fields, key),
            _ => None,
        }
    }

    /// The value of a field, or null if there is none.
    pub open spec fn at(self, key: Seq<char>) -> JsonModel {
        match self.field(key) {
            Some(value) => value,
            None => JsonModel::Null,
        }
    }

    /// The text that this is, if it is one.
    pub open spec fn as_text(self) -> Option<Seq<char>> {
        match self {
            JsonModel::Text(s) => Some(s),
            _ => None,
        }
    }

    /// The signed 64-bit integer that this is, if it is one.
    pub open spec fn as_i64(self) -> Option<i64> {
        match self {
            JsonModel::Number(NumberModel::PosInt(n)) => if n <= i64::MAX {
                Some(n as i64)
            } else {
                None
            },
            JsonModel::Number(NumberModel::NegInt(n)) => Some(n),
            _ => None,
        }
    }

    /// The unsigned 64-bit integer that this is, if it is one.
    pub open spec fn as_u64(self) -> Option<u64> {
        match self {
            JsonModel::Number(NumberModel::PosInt(n)) => Some(n),
            _ => None,
        }
    }
}

impl Json {
    /// Looks up a field of an object.
    pub fn get(&self, key: &str) -> (value: Option<&Json>)
        ensures
            match value {
                Some(value) => self@.field(key@) == Some(value@),
                None => self@.field(key@) is None,
            },
    {
        match self {
            Json::Object(fields) => {
                let ghost all = self@->Object_0;
                let mut i: usize = 0;
                assert(all.skip(0) =~= all);
                while i < fields.len()
                    invariant
                        i <= fields@.len(),
                        self@ == JsonModel::Object(all),
                        all.len() == fields@.len(),
                        forall|j: int|
                            0 <= j < fields@.len() ==> #[trigger] all[j] == (
                                fields@[j].0@,
                                fields@[j].1@,
                            ),
                        first_field(all, key@) == first_field(all.skip(i as int), key@),
                    decreases fields.len() - i,
                {
                    assert(all.skip(i as int)[0] == all[i as int]);
                    if same_text(&fields[i].0, key) {
                        return Some(&fields[i].1);
                    }
                    assert(all.skip(i as int).skip(1) =~= all.skip(i + 1));
                    i += 1;
                }
                None
            },
            _ => None,
        }
    }

    /// The text that this is, if it is one.
    pub fn as_text(&self) -> (text: Option<&str>)
        ensures
            match text {
                Some(text) => self@.as_text() == Some(text@),
                None => self@.as_text() is None,
            },
    {
        match self {
            Json::Text(s) => Some(s.as_str()),
            _ => None,
        }
    }

    /// The signed 64-bit integer that this is, if it is one.
    pub fn as_i64(&self) -> (n: Option<i64>)
        ensures
            n == self@.as_i64(),
    {
        match self {
            Json::Number(JsonNumber::PosInt(n)) => if *n <= i64::MAX as u64 {
                Some(*n as i64)
            } else {
                None
            },
            Json::Number(JsonNumber::NegInt(n)) => Some(*n),
            _ => None,
        }
    }

    /// The unsigned 64-bit integer that this is, if it is one.
    pub fn as_u64(&self) -> (n: Option<u64>)
        ensures
            n == self@.as_u64(),
    {
        match self {
            Json::Number(JsonNumber::PosInt(n)) => Some(*n),
            _ => None,
        }
    }

    /// The text held by a field.
    pub fn text_at(&self, key: &str) -> (text: Option<&str>)
        ensures
            match text {
                Some(text) => self@.at(key@).as_text() == Some(text@),
                None => self@.at(key@).as_text() is None,
            },
    {
        match self.get(key) {
            Some(value) => value.as_text(),
            None => None,
        }
    }

    /// The signed integer held by a field.
    pub fn i64_at(&self, key: &str) -> (n: Option<i64>)
        ensures
            n == self@.at(key@).as_i64(),
    {
        match self.get(key) {
            Some(value) => value.as_i64(),
            None => None,
        }
    }

    /// The unsigned integer held by a field.
    pub fn u64_at(&self, key: &str) -> (n: Option<u64>)
        ensures
            n == self@.at(key@).as_u64(),
    {
        match self.get(key) {
            Some(value) => value.as_u64(),
            None => None,
        }
    }
}

/// A document of `serde_json`.
#[verifier::external_type_specification]
#[verifier::external_body]
pub struct ExValue(serde_json::Value);

/// The error of `serde_json` for text that is no JSON.
#[verifier::external_type_specification]
#[verifier::external_body]
pub struct ExJsonError(serde_json::Error);

/// What a `serde_json` document holds.
pub uninterp spec fn value_contents(value: serde_json::Value) -> JsonModel;

/// The document that `serde_json::from_str` reads from a text, or the error with which it refuses
/// the text.
pub uninterp spec fn parsed_json(text: Seq<char>) -> Result<JsonModel, serde_json::Error>;

/// The `serde_json` document that is built from the parts of a document.
pub uninterp spec fn value_with(json: JsonModel) -> serde_json::Value;

/// The text that the `Display` of `serde_json::Value` writes for a document.
pub uninterp spec fn value_written(value: serde_json::Value) -> Seq<char>;

/// Calls `serde_json::from_str` for a document of any shape. The claim is that the outcome
/// depends on the text alone, the error included, and that a carriage return at the end of the
/// text makes no difference to what is read: behind a complete document it is skipped as white
/// space, and an incomplete one it does not complete.
#[verifier::external_body]
fn parse_value(text: &str) -> (value: Result<serde_json::Value, serde_json::Error>)
    ensures
        match value {
            Ok(value) => parsed_json(text@) == Ok::<JsonModel, serde_json::Error>(
                value_contents(value),
            ) && parsed_json(text::without_return(text@)) == parsed_json(text@),
            Err(error) => parsed_json(text@) == Err::<JsonModel, serde_json::Error>(error)
                && parsed_json(text::without_return(text@)) is Err,
        },
{
    serde_json::from_str::<serde_json::Value>(text)
}

/// Takes a `serde_json::Value` apart, variant by variant. An integer is told from another
/// number by `Number::as_u64` and `Number::as_i64`. The claim is that nothing of the contents is
/// lost.
#[verifier::external_body]
fn json_of_value(value: serde_json::Value) -> (json: Json)
    ensures
        json@ == value_contents(value),
{
    match value {
        serde_json::Value::Null => Json::Null,
        serde_json::Value::Bool(b) => Json::Bool(b),
        serde_json::Value::Number(n) => Json::Number(match (n.as_u64(), n.as_i64()) {
            (Some(n), _) => JsonNumber::PosInt(n),
            (None, Some(n)) => JsonNumber::NegInt(n),
            (None, None) => JsonNumber::Float(n),
        }),
        serde_json::Value::String(s) => Json::Text(s),
        serde_json::Value::Array(items) => Json::Array(items.into_iter().map(json_of_value).collect()),
        serde_json::Value::Object(fields) => Json::Object(
            fields.into_iter().map(|(key, value)| (key, json_of_value(value))).collect()),
    }
}

/// Builds a `serde_json::Value`, variant by variant. The claim is that it depends on the contents
/// of the document alone, and that null, a truth value or an integer stays what it is. Nothing is
/// said of the contents of an object: of several fields with one name, `serde_json` keeps the last.
#[verifier::external_body]
fn value_of_json(json: &Json) -> (value: serde_json::Value)
    ensures
        value == value_with(json@),
        plainly_written(json@) is Some ==> value_contents(value) == json@,
{
    match json {
        Json::Null => serde_json::Value::Null,
        Json::Bool(b) => serde_json::Value::Bool(*b),
        Json::Number(JsonNumber::PosInt(n)) => serde_json::Value::from(*n),
        Json::Number(JsonNumber::NegInt(n)) => serde_json::Value::from(*n),
        Json::Number(JsonNumber::Float(n)) => serde_json::Value::Number(n.clone()),
        Json::Text(s) => serde_json::Value::String(s.clone()),
        Json::Array(items) => serde_json::Value::Array(items.iter().map(value_of_json).collect()),
        Json::Object(fields) => serde_json::Value::Object(
            fields.iter().map(|(key, value)| (key.clone(), value_of_json(value))).collect()),
    }
}

/// The text that `serde_json::to_string_pretty` writes for a document.
pub uninterp spec fn value_written_pretty(value: serde_json::Value) -> Seq<char>;

/// Calls `serde_json::to_string_pretty`, which fails only where a value has something that JSON
/// lacks, as no `serde_json::Value` has. The claim is that the text depends on the value alone.
#[verifier::external_body]
fn write_value_pretty(value: &serde_json::Value) -> (text: String)
    ensures
        text@ == value_written_pretty(*value),
{
    serde_json::to_string_pretty(value).unwrap()
}

/// Calls the `Display` of `serde_json::Value`. The claim is that the text depends on the value
/// alone, and that null, the truth values and integers are written as usual.
#[verifier::external_body]
fn write_value(value: &serde_json::Value) -> (text: String)
    ensures
        text@ == value_written(*value),
        plainly_written(value_contents(*value)) matches Some(plain) ==> text@ == plain,
{
    value.to_string()
}

/// Text that is no JSON document.
pub struct JsonError {
    pub source: serde_json::Error,
}

impl Json {
    /// Reads a document from text.
    pub fn parse(text: &str) -> (json: Result<Json, JsonError>)
        ensures
            match json {
                Ok(json) => parsed_json(text@) == Ok::<JsonModel, serde_json::Error>(json@)
                    && parsed_json(text::without_return(text@)) == parsed_json(text@),
                Err(error) => parsed_json(text@) == Err::<JsonModel, serde_json::Error>(
                    error.source,
                ) && parsed_json(text::without_return(text@)) is Err,
            },
    {
        match parse_value(text) {
            Ok(value) => Ok(json_of_value(value)),
            Err(source) => Err(JsonError { source }),
        }
    }
}

impl JsonModel {
    /// The document as JSON text without any space between its parts.
    pub open spec fn written(self) -> Seq<char> {
        match plainly_written(self) {
            Some(plain) => plain,
            None => value_written(value_with(self)),
        }
    }
}

/// The text for null, a truth value or an integer; nothing for another document. An integer is
/// kept as a negative one only if it is negative.
pub open spec fn plainly_written(json: JsonModel) -> Option<Seq<char>> {
    match json {
        JsonModel::Null => Some("null"@),
        JsonModel::Bool(b) => Some(
            if b {
                "true"@
            } else {
                "false"@
            },
        ),
        JsonModel::Number(NumberModel::PosInt(n)) => Some(text::decimal(n as nat)),
        JsonModel::Number(NumberModel::NegInt(n)) => if n < 0 {
            Some(text::signed_decimal(n as int))
        } else {
            None
        },
        _ => None,
    }
}

impl Json {
    /// The document as JSON text without any space between its parts.
    pub fn write(&self) -> (text: String)
        ensures
            text@ == self@.written(),
    {
        let value = value_of_json(self);
        write_value(&value)
    }

    /// The document as JSON text over several lines.
    pub fn write_pretty(&self) -> (text: String)
        ensures
            text@ == value_written_pretty(value_with(self@)),
    {
        let value = value_of_json(self);
        write_value_pretty(&value)
    }
}

} // verus!
