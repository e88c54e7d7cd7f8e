//! JSON values: what `serde_json` is trusted to do, what a raw token stands
//! for, and the two ways to write a value.

use crate::testing::TestBuffer;
use crate::ReadError;
use vstd::prelude::*;

verus! {

/// `serde_json::Value`, a JSON value. The library builds such values and
/// hands them on, and never looks into one.
#[verifier::external_type_specification]
#[verifier::external_body]
pub struct ExValue(serde_json::Value);

/// `serde_json::Map`, the members of a JSON object.
#[verifier::external_type_specification]
#[verifier::external_body]
#[verifier::reject_recursive_types(K)]
#[verifier::reject_recursive_types(V)]
pub struct ExObject<K, V>(serde_json::Map<K, V>);

/// `serde_json::Error`, which says why a text is no JSON document.
#[verifier::external_type_specification]
#[verifier::external_body]
pub struct ExParseError(serde_json::Error);

/// A JSON value as contracts see it. A number stands as the text that
/// `serde_json` writes for it, which tells any two numbers apart. The members
/// of an object are a map: the order in which they were inserted is not part
/// of the value.
pub enum Json {
    Null,
    Bool(bool),
    Number(Seq<char>),
    String(Seq<char>),
    Array(Seq<Json>),
    Object(Map<Seq<char>, Json>),
}

/// What a `serde_json::Value` holds.
pub uninterp spec fn json_of(value: serde_json::Value) -> Json;

/// The members that a `serde_json::Map` holds, by key.
pub uninterp spec fn members_of(map: serde_json::Map<String, serde_json::Value>) -> Map<
    Seq<char>,
    Json,
>;

/// The value that `serde_json::from_str` reads from `text`, or `None` where
/// `text` is not one JSON document.
pub uninterp spec fn parsed(text: Seq<char>) -> Option<Json>;

/// The text that `serde_json::to_string` writes for `value`: on one line, with
/// no space that JSON does not ask for.
pub uninterp spec fn compact(value: Json) -> Seq<char>;

/// The text that `serde_json::to_string_pretty` writes for `value`: on several
/// lines, indented.
pub uninterp spec fn pretty(value: Json) -> Seq<char>;

/// The members of an object that has none.
pub open spec fn no_members() -> Map<Seq<char>, Json> {
    Map::empty()
}

/// What each value of a vector holds, in order.
pub open spec fn jsons_of(values: Seq<serde_json::Value>) -> Seq<Json> {
    values.map_values(|value: serde_json::Value| json_of(value))
}

/// `serde_json::Map::new` makes a map without members.
pub assume_specification[ serde_json::Map::<std::string::String, serde_json::Value>::new ]() -> (
    map: serde_json::Map<std::string::String, serde_json::Value>
)
    ensures
        members_of(map) == no_members(),
;

/// `serde_json::Map::insert` sets the member under the key, in place of an
/// earlier one under the same key, which it returns, and leaves the other
/// members alone.
pub assume_specification[ serde_json::Map::<std::string::String, serde_json::Value>::insert ](
    map: &mut serde_json::Map<std::string::String, serde_json::Value>,
    k: std::string::String,
    v: serde_json::Value,
) -> (previous: Option<serde_json::Value>)
    ensures
        members_of(*final(map)) == members_of(*old(map)).insert(k@, json_of(v)),
        match previous {
            Some(earlier) => members_of(*old(map)).contains_key(k@) && members_of(*old(map))[k@]
                == json_of(earlier),
            None => !members_of(*old(map)).contains_key(k@),
        },
;

/// `serde_json::from_str`, reading a `Value`: the result depends on the text
/// alone, and a text without characters is no JSON document.
#[verifier::external_body]
fn parse(text: &str) -> (read: Result<serde_json::Value, serde_json::Error>)
    ensures
        match read {
            Ok(value) => parsed(text@) == Some(json_of(value)),
            Err(_) => parsed(text@) is None,
        },
        text@.len() == 0 ==> read is Err,
{
    serde_json::from_str::<serde_json::Value>(text)
}

/// `serde_json::to_string` on a `Value`: the text depends on what the value
/// holds alone, the members of an object being written in the order of their
/// keys. A `Value` gives it neither of the two reasons to fail that it has, a
/// key that is no string and a failing `Serialize`.
#[verifier::external_body]
fn write_compact(value: &serde_json::Value) -> (text: String)
    ensures
        text@ == compact(json_of(*value)),
{
    serde_json::to_string(value).unwrap()
}

/// `serde_json::to_string_pretty` on a `Value`, of which the same holds.
#[verifier::external_body]
fn write_pretty(value: &serde_json::Value) -> (text: String)
    ensures
        text@ == pretty(json_of(*value)),
{
    serde_json::to_string_pretty(value).unwrap()
}

/// The variant `serde_json::Value::Null`.
#[verifier::external_body]
pub(crate) fn null_value() -> (value: serde_json::Value)
    ensures
        json_of(value) == Json::Null,
{
    serde_json::Value::Null
}

/// The variant `serde_json::Value::String`, which holds `text` as it is.
#[verifier::external_body]
pub(crate) fn string_value(text: String) -> (value: serde_json::Value)
    ensures
        json_of(value) == Json::String(text@),
{
    serde_json::Value::String(text)
}

/// The variant `serde_json::Value::Array`, which holds `items` in their order.
#[verifier::external_body]
pub(crate) fn array_value(items: Vec<serde_json::Value>) -> (value: serde_json::Value)
    ensures
        json_of(value) == Json::Array(jsons_of(items@)),
{
    serde_json::Value::Array(items)
}

/// `serde_json::Value::from` on a map: the variant `Value::Object` with the
/// members of the map.
#[verifier::external_body]
pub(crate) fn object_value(members: serde_json::Map<String, serde_json::Value>) -> (value:
    serde_json::Value)
    ensures
        json_of(value) == Json::Object(members_of(members)),
{
    serde_json::Value::from(members)
}

/// What a raw token stands for once it was put to the JSON reader: the value
/// that was read, or the token itself as a string where none was.
pub open spec fn literal_or_string(read: Option<Json>, raw: Seq<char>) -> Json {
    match read {
        Some(literal) => literal,
        None => Json::String(raw),
    }
}

/// What a raw token stands for. With `auto` it is the JSON literal that the
/// token spells, if it spells one; in every other case it is the token itself,
/// as a string.
pub open spec fn coerced(raw: Seq<char>, auto: bool) -> Json {
    if auto {
        literal_or_string(parsed(raw), raw)
    } else {
        Json::String(raw)
    }
}

/// The compact text of `value`, read again, gives `value`. Whether that holds
/// of a value is `serde_json`'s business, and it does not hold of every value:
/// the reader stops at a depth that the writer does not know of.
pub open spec fn reads_back(value: Json) -> bool {
    parsed(compact(value)) == Some(value)
}

/// With `auto` a token that spells a JSON literal stands for that literal, and
/// a token that spells none stands for itself, unchanged. So the compact text
/// of a value that reads back stands for the value again.
pub proof fn lemma_coerced_tokens(raw: Seq<char>, value: Json)
    ensures
        parsed(raw) == Some(value) ==> coerced(raw, true) == value,
        parsed(raw) is None ==> coerced(raw, true) == Json::String(raw),
        reads_back(value) ==> coerced(compact(value), true) == value,
{
}

/// The value that was read from `raw`, or `raw` itself as a string where
/// none was read.
pub fn or_string(read: Option<serde_json::Value>, raw: String) -> (value: serde_json::Value)
    ensures
        json_of(value) == literal_or_string(
            match read {
                Some(literal) => Some(json_of(literal)),
                None => None,
            },
            raw@,
        ),
{
    match read {
        Some(literal) => literal,
        None => string_value(raw),
    }
}

/// Turns a raw token into a value; see `coerced`. A token that is no JSON
/// literal is never an error, and an empty token is the empty string.
pub fn coerce(raw: String, auto: bool) -> (value: serde_json::Value)
    ensures
        json_of(value) == coerced(raw@, auto),
        raw@.len() == 0 ==> json_of(value) == Json::String(raw@),
{
    if auto {
        let read = match parse(raw.as_str()) {
            Ok(literal) => Some(literal),
            Err(_) => None,
        };
        or_string(read, raw)
    } else {
        string_value(raw)
    }
}

/// A command that builds one JSON value, from what it holds or from an input
/// stream.
pub trait JsonValueCommand {
    /// Whether the command reads the input stream. A stream that is read is
    /// read to its end.
    spec fn needs_input(&self) -> bool;

    /// The value that the command builds on a stream that holds `input`, or
    /// `None` where it reads the stream and `input` is not UTF-8.
    spec fn json_on(&self, input: Seq<u8>) -> Option<Json>;

    /// Whether `get_json_value` reads the input stream.
    fn takes_input(&self) -> (takes: bool)
        ensures
            takes == self.needs_input(),
    ;

    /// Builds the value, reading `input` where `needs_input` says so and
    /// leaving it alone where not.
    fn get_json_value(&self, input: &mut TestBuffer) -> (value: Result<
        serde_json::Value,
        ReadError,
    >)
        ensures
            final(input)@ == (if self.needs_input() {
                Seq::empty()
            } else {
                old(input)@
            }),
            match value {
                Ok(value) => self.json_on(old(input)@) == Some(json_of(value)),
                Err(error) => self.json_on(old(input)@) is None && error == ReadError::InvalidData,
            },
    ;
}

/// A way to write a JSON value as text.
pub trait JsonFormatter {
    /// The text that `format` writes for `value`.
    spec fn formatted(&self, value: Json) -> Seq<char>;

    /// Writes `value` as text, with no line feed after it.
    fn format(&self, value: serde_json::Value) -> (text: String)
        ensures
            text@ == self.formatted(json_of(value)),
    ;
}

/// Writes a value on several lines, indented.
pub struct JsonPrettyPrinter;

impl JsonFormatter for JsonPrettyPrinter {
    open spec fn formatted(&self, value: Json) -> Seq<char> {
        pretty(value)
    }

    fn format(&self, value: serde_json::Value) -> (text: String) {
        write_pretty(&value)
    }
}

/// Writes a value on one line, with no space that JSON does not ask for.
pub struct JsonDefaultPrinter;

impl JsonFormatter for JsonDefaultPrinter {
    open spec fn formatted(&self, value: Json) -> Seq<char> {
        compact(value)
    }

    fn format(&self, value: serde_json::Value) -> (text: String) {
        write_compact(&value)
    }
}

} // verus!
