//! JSON documents, as `serde_json` holds, reads and writes them.

use crate::text::blank;
use serde_json::Value;
use vstd::prelude::*;

verus! {

/// Declares `serde_json::Value`, of whose insides nothing is seen: [`json_of`] says what one holds.
#[verifier::external_type_specification]
#[verifier::external_body]
pub struct ExValue(Value);

/// What a JSON document says. The members of an object have no order.
pub enum Json {
    Null,
    Bool(bool),
    /// A number that fits an unsigned 64-bit integer.
    Natural(nat),
    /// Any other number, by its text: negative, fractional or too large.
    OtherNumber(Seq<char>),
    Text(Seq<char>),
    Array(Seq<Json>),
    Object(Map<Seq<char>, Json>),
}

impl Json {
    /// The member `name`, where this is an object that has one.
    pub open spec fn member(self, name: Seq<char>) -> Option<Json> {
        match self {
            Json::Object(members) => if members.contains_key(name) {
                Some(members[name])
            } else {
                None
            },
            _ => None,
        }
    }

    /// Whether the document can be read back exactly: its arrays and objects are nested at most
    /// `depth` deep, and its only numbers are natural ones.
    pub open spec fn readable(self, depth: nat) -> bool
        decreases depth,
    {
        match self {
            Json::OtherNumber(_) => false,
            Json::Array(items) => depth > 0 && forall|i: int|
                0 <= i < items.len() ==> (#[trigger] items[i]).readable((depth - 1) as nat),
            Json::Object(members) => depth > 0 && forall|name: Seq<char>|
                #[trigger] members.contains_key(name) ==> members[name].readable(
                    (depth - 1) as nat,
                ),
            _ => true,
        }
    }
}

/// How deep `serde_json` follows nested arrays and objects when it reads.
pub open spec fn depth_limit() -> nat {
    127
}

/// The document that a `serde_json::Value` holds.
pub uninterp spec fn json_of(value: Value) -> Json;

/// What `serde_json::from_str` makes of a text: a document, or the message of its error.
pub uninterp spec fn json_read(text: Seq<char>) -> Result<Json, Seq<char>>;

/// What `serde_json::from_slice` makes of some bytes: a document, or the message of its error.
pub uninterp spec fn json_read_bytes(bytes: Seq<u8>) -> Result<Json, Seq<char>>;

/// The compact text that `serde_json` writes for a document.
pub uninterp spec fn json_text(document: Json) -> Seq<char>;

/// The documents that some values hold.
pub open spec fn documents(values: Seq<Value>) -> Seq<Json> {
    Seq::new(values.len(), |i: int| json_of(values[i]))
}

/// Calls `serde_json::from_str::<Value>`. It returns the document that the whole text spells, or
/// an error, whose `Display` form is returned. Which texts are JSON is not stated here.
#[verifier::external_body]
pub(crate) fn parse(text: &str) -> (r: Result<Value, String>)
    ensures
        match r {
            Ok(value) => json_read(text@) matches Ok(document) && document == json_of(value),
            Err(message) => json_read(text@) matches Err(said) && said == message@,
        },
{
    match serde_json::from_str::<Value>(text) {
        Ok(value) => Ok(value),
        Err(error) => Err(error.to_string()),
    }
}

/// Calls `serde_json::from_slice::<Value>`. It returns the document that all the bytes spell, or
/// an error, whose `Display` form is returned. Which bytes are JSON is not stated here.
#[verifier::external_body]
pub(crate) fn parse_bytes(bytes: &[u8]) -> (r: Result<Value, String>)
    ensures
        match r {
            Ok(value) => json_read_bytes(bytes@) matches Ok(document) && document == json_of(value),
            Err(message) => json_read_bytes(bytes@) matches Err(said) && said == message@,
        },
{
    match serde_json::from_slice::<Value>(bytes) {
        Ok(value) => Ok(value),
        Err(error) => Err(error.to_string()),
    }
}

/// Calls `Value::to_string`, the compact `Display` form, which is never blank. The form depends on
/// the document alone, since the members of an object are written in the order of their names.
/// Reading it back with `serde_json::from_str` gives the same document, as long as the nesting
/// stays within the reader's limit and no number has to be rounded.
#[verifier::external_body]
pub(crate) fn to_text(value: &Value) -> (r: String)
    ensures
        r@ == json_text(json_of(*value)),
        !blank(r@),
        json_of(*value).readable(depth_limit()) ==> json_read(r@) is Ok,
        json_of(*value).readable(depth_limit()) ==> json_read(r@)->Ok_0 == json_of(*value),
{
    value.to_string()
}

/// Calls `Value::get` with a name: the member of that name, where the value is an object that has
/// one.
#[verifier::external_body]
pub(crate) fn get<'a>(value: &'a Value, name: &str) -> (r: Option<&'a Value>)
    ensures
        match r {
            Some(member) => json_of(*value).member(name@) == Some(json_of(*member)),
            None => json_of(*value).member(name@) is None,
        },
{
    value.get(name)
}

/// Calls `Value::as_str`: the text, where the value is one.
#[verifier::external_body]
pub(crate) fn as_str(value: &Value) -> (r: Option<&str>)
    ensures
        match json_of(*value) {
            Json::Text(text) => r matches Some(s) && s@ == text,
            _ => r is None,
        },
{
    value.as_str()
}

/// Calls `Value::as_bool`: the boolean, where the value is one.
#[verifier::external_body]
pub(crate) fn as_bool(value: &Value) -> (r: Option<bool>)
    ensures
        match json_of(*value) {
            Json::Bool(b) => r == Some(b),
            _ => r is None,
        },
{
    value.as_bool()
}

/// Calls `Value::as_u64`: the number, where the value is one that fits.
#[verifier::external_body]
pub(crate) fn as_u64(value: &Value) -> (r: Option<u64>)
    ensures
        match json_of(*value) {
            Json::Natural(n) => r matches Some(m) && m == n,
            _ => r is None,
        },
{
    value.as_u64()
}

/// Calls `Value::is_object`: whether the value is an object.
#[verifier::external_body]
pub(crate) fn is_object(value: &Value) -> (r: bool)
    ensures
        r == (json_of(*value) is Object),
{
    value.is_object()
}

/// Calls `Value::is_null`: whether the value is null.
#[verifier::external_body]
pub(crate) fn is_null(value: &Value) -> (r: bool)
    ensures
        r == (json_of(*value) is Null),
{
    value.is_null()
}

/// Calls `Value::as_array`: the items, where the value is an array.
#[verifier::external_body]
pub(crate) fn as_array(value: &Value) -> (r: Option<&Vec<Value>>)
    ensures
        match json_of(*value) {
            Json::Array(items) => r matches Some(values) && documents(values@) == items,
            _ => r is None,
        },
{
    value.as_array()
}

/// Calls `Value::clone`: a value that holds the same document.
#[verifier::external_body]
pub(crate) fn copy(value: &Value) -> (r: Value)
    ensures
        json_of(r) == json_of(*value),
{
    value.clone()
}

/// Calls `Value::from` on a text: that text as a document.
#[verifier::external_body]
pub(crate) fn text_value(text: &str) -> (r: Value)
    ensures
        json_of(r) == Json::Text(text@),
{
    Value::from(text)
}

/// Calls `Value::from` on a boolean: that boolean as a document.
#[verifier::external_body]
pub(crate) fn bool_value(b: bool) -> (r: Value)
    ensures
        json_of(r) == Json::Bool(b),
{
    Value::from(b)
}

/// Calls `Value::from` on an unsigned integer: that number as a document.
#[verifier::external_body]
pub(crate) fn natural_value(n: u64) -> (r: Value)
    ensures
        json_of(r) == Json::Natural(n as nat),
{
    Value::from(n)
}

/// Calls `Value::from` on a vector: the array of its items, in order.
#[verifier::external_body]
pub(crate) fn array_value(values: Vec<Value>) -> (r: Value)
    ensures
        json_of(r) == Json::Array(documents(values@)),
{
    Value::from(values)
}

/// Calls `Value::from` on the map that `serde_json::Map::new` makes: an object without members.
#[verifier::external_body]
pub(crate) fn empty_object() -> (r: Value)
    ensures
        json_of(r) == Json::Object(Map::empty()),
{
    Value::from(serde_json::Map::new())
}

/// Assigns through `Value`'s `IndexMut` with a name: on an object it replaces the member of that
/// name or adds one, and leaves the others. It panics on what is neither an object nor null.
#[verifier::external_body]
pub(crate) fn set_member(object: &mut Value, name: &str, member: Value)
    requires
        json_of(*old(object)) is Object,
    ensures
        json_of(*final(object)) == Json::Object(
            json_of(*old(object))->Object_0.insert(name@, json_of(member)),
        ),
{
    object[name] = member;
}

/// The member `name` of a document, where it is text.
pub open spec fn text_member(document: Json, name: Seq<char>) -> Option<Seq<char>> {
    match document.member(name) {
        Some(Json::Text(text)) => Some(text),
        _ => None,
    }
}

/// The member `name` of a document where it is text, and nothing otherwise.
pub open spec fn text_or_empty(document: Json, name: Seq<char>) -> Seq<char> {
    match text_member(document, name) {
        Some(text) => text,
        None => Seq::empty(),
    }
}

/// The member `name` of a document where it is a boolean, and `default` otherwise.
pub open spec fn bool_or(document: Json, name: Seq<char>, default: bool) -> bool {
    match document.member(name) {
        Some(Json::Bool(b)) => b,
        _ => default,
    }
}

/// The member `name` where it is text, and nothing otherwise.
pub(crate) fn read_text(value: &Value, name: &str) -> (r: String)
    ensures
        r@ == text_or_empty(json_of(*value), name@),
{
    match get(value, name) {
        Some(member) => match as_str(member) {
            Some(text) => text.to_string(),
            None => String::new(),
        },
        None => String::new(),
    }
}

/// The member `name` where it is a boolean, and `default` otherwise.
pub(crate) fn read_bool(value: &Value, name: &str, default: bool) -> (r: bool)
    ensures
        r == bool_or(json_of(*value), name@, default),
{
    match get(value, name) {
        Some(member) => match as_bool(member) {
            Some(b) => b,
            None => default,
        },
        None => default,
    }
}

/// The members of an object are those that it has, under their names, and nothing else has any.
pub proof fn law_members_are_found_under_their_names(
    members: Map<Seq<char>, Json>,
    name: Seq<char>,
    text: Seq<char>,
    b: bool,
    default: bool,
    other: Json,
)
    ensures
        members.contains_key(name) ==> Json::Object(members).member(name) == Some(members[name]),
        !members.contains_key(name) ==> Json::Object(members).member(name) is None,
        !(other is Object) ==> other.member(name) is None,
        members.contains_pair(name, Json::Text(text)) ==> {
            &&& text_member(Json::Object(members), name) == Some(text)
            &&& text_or_empty(Json::Object(members), name) == text
        },
        !(members.contains_key(name) && members[name] is Text) ==> {
            &&& text_member(Json::Object(members), name) is None
            &&& text_or_empty(Json::Object(members), name).len() == 0
        },
        members.contains_pair(name, Json::Bool(b)) ==> bool_or(Json::Object(members), name, default)
            == b,
        !(members.contains_key(name) && members[name] is Bool) ==> bool_or(
            Json::Object(members),
            name,
            default,
        ) == default,
{
}

/// Looking at some values leaves none of them out and changes none.
pub proof fn law_every_document_is_seen(values: Seq<Value>)
    ensures
        documents(values).len() == values.len(),
        forall|i: int| 0 <= i < values.len() ==> documents(values)[i] == json_of(#[trigger] values[i]),
{
}

} // verus!
