//! JSON values: what they hold, and the calls into `serde_json` that read and
//! build them.
//!
//! A [`serde_json::Value`] is opaque here. [`content`] names what one holds as a
//! mathematical [`Json`], and every call below says over that model what it
//! finds, builds or changes.
use serde_json::Value;
use vstd::prelude::*;

verus! {

/// What a JSON value holds.
///
/// The members of an object have no order: `serde_json` keeps them sorted by
/// name.
pub enum Json {
    Null,
    Bool(bool),
    /// A number without a fraction or an exponent, in the range of `i64` or `u64`.
    Int(int),
    /// Any other number, by the bits of its double.
    Float(u64),
    Text(Seq<char>),
    List(Seq<Json>),
    Object(Map<Seq<char>, Json>),
}

/// `serde_json::Value`, seen only through [`content`].
#[verifier::external_type_specification]
#[verifier::external_body]
pub struct ExValue(serde_json::Value);

/// `serde_json::Map`, seen only through [`members`].
#[verifier::external_type_specification]
#[verifier::external_body]
#[verifier::reject_recursive_types(K)]
#[verifier::reject_recursive_types(V)]
pub struct ExJsonMap<K, V>(serde_json::Map<K, V>);

/// What `value` holds.
pub uninterp spec fn content(value: Value) -> Json;

/// The members of an object, by name.
pub uninterp spec fn members(map: serde_json::Map<String, Value>) -> Map<Seq<char>, Json>;

/// What `serde_json` reads from `text`: a value, or the message of its error.
pub uninterp spec fn parsed(text: Seq<char>) -> Result<Json, Seq<char>>;

/// The indented text, in UTF-8, that `serde_json` writes for a value, or the
/// message of its error.
pub uninterp spec fn pretty(json: Json) -> Result<Seq<u8>, Seq<char>>;

/// What a sequence of values holds, one by one.
pub open spec fn contents(values: Seq<Value>) -> Seq<Json> {
    values.map_values(|value: Value| content(value))
}

/// What an optional borrowed value holds.
pub open spec fn content_of(value: Option<&Value>) -> Option<Json> {
    match value {
        Some(value) => Some(content(*value)),
        None => None,
    }
}

/// The member of an object called `key`. Nothing but an object has one.
pub open spec fn member(json: Json, key: Seq<char>) -> Option<Json> {
    match json {
        Json::Object(members) => if members.dom().contains(key) {
            Some(members[key])
        } else {
            None
        },
        _ => None,
    }
}

/// [`member`] of a value that may be missing itself.
pub open spec fn member_of(json: Option<Json>, key: Seq<char>) -> Option<Json> {
    match json {
        Some(json) => member(json, key),
        None => None,
    }
}

/// The characters of a text value.
pub open spec fn text_in(json: Option<Json>) -> Option<Seq<char>> {
    match json {
        Some(Json::Text(text)) => Some(text),
        _ => None,
    }
}

/// The number in an integer value, where it fits an `i64`.
pub open spec fn integer_in(json: Option<Json>) -> Option<int> {
    match json {
        Some(Json::Int(n)) => if i64::MIN <= n <= i64::MAX {
            Some(n)
        } else {
            None
        },
        _ => None,
    }
}

/// The first item of a list value.
pub open spec fn first_in(json: Option<Json>) -> Option<Json> {
    match json {
        Some(Json::List(items)) => if items.len() > 0 {
            Some(items[0])
        } else {
            None
        },
        _ => None,
    }
}

/// `serde_json::from_str` into a `Value`. The result is named, not described:
/// [`parsed`] stands for the whole JSON grammar. An error is given by its
/// message.
#[verifier::external_body]
pub(crate) fn read(text: &str) -> (result: Result<Value, String>)
    ensures
        match result {
            Ok(value) => parsed(text@) == Ok::<Json, Seq<char>>(content(value)),
            Err(message) => parsed(text@) == Err::<Json, Seq<char>>(message@),
        },
{
    match serde_json::from_str::<Value>(text) {
        Ok(value) => Ok(value),
        Err(error) => Err(error.to_string()),
    }
}

/// `serde_json::to_vec_pretty` of a `Value`. The result is named by [`pretty`];
/// an error is given by its message.
#[verifier::external_body]
pub(crate) fn write_pretty(value: &Value) -> (result: Result<Vec<u8>, String>)
    ensures
        match result {
            Ok(bytes) => pretty(content(*value)) == Ok::<Seq<u8>, Seq<char>>(bytes@),
            Err(message) => pretty(content(*value)) == Err::<Seq<u8>, Seq<char>>(message@),
        },
{
    match serde_json::to_vec_pretty(value) {
        Ok(bytes) => Ok(bytes),
        Err(error) => Err(error.to_string()),
    }
}

/// `Value::get` with a text: the member of that name, where the value is an
/// object that has one.
#[verifier::external_body]
pub(crate) fn get<'a>(value: &'a Value, key: &str) -> (found: Option<&'a Value>)
    ensures
        content_of(found) == member(content(*value), key@),
{
    value.get(key)
}

/// `Value::get_mut` with a text: the member of that name, to be changed in
/// place. Where there is none the value stays as it is.
#[verifier::external_body]
pub(crate) fn get_mut<'a>(value: &'a mut Value, key: &str) -> (found: Option<&'a mut Value>)
    ensures
        match found {
            Some(inner) => match content(*old(value)) {
                Json::Object(all) => {
                    &&& all.dom().contains(key@)
                    &&& content(*inner) == all[key@]
                    &&& content(*final(value)) == Json::Object(
                        all.insert(key@, content(*final(inner))),
                    )
                },
                _ => false,
            },
            None => {
                &&& member(content(*old(value)), key@) is None
                &&& content(*final(value)) == content(*old(value))
            },
        },
{
    value.get_mut(key)
}

/// `Value::as_str`: the characters of a text value.
#[verifier::external_body]
pub(crate) fn as_text(value: &Value) -> (text: Option<&str>)
    ensures
        match text {
            Some(text) => content(*value) == Json::Text(text@),
            None => !(content(*value) is Text),
        },
{
    value.as_str()
}

/// `Value::as_i64`: the number in a value, where it is an integer in the range
/// of `i64`.
#[verifier::external_body]
pub(crate) fn as_integer(value: &Value) -> (number: Option<i64>)
    ensures
        match number {
            Some(n) => content(*value) == Json::Int(n as int),
            None => integer_in(Some(content(*value))) is None,
        },
{
    value.as_i64()
}

/// `Value::as_array`: the items of a list value.
#[verifier::external_body]
pub(crate) fn as_items(value: &Value) -> (items: Option<&Vec<Value>>)
    ensures
        match items {
            Some(items) => content(*value) == Json::List(contents(items@)),
            None => !(content(*value) is List),
        },
{
    value.as_array()
}

/// `Value::as_object_mut`: the members of an object value, to be changed in
/// place. Any other value stays as it is.
#[verifier::external_body]
pub(crate) fn as_members_mut<'a>(value: &'a mut Value) -> (found: Option<
    &'a mut serde_json::Map<String, Value>,
>)
    ensures
        match found {
            Some(map) => {
                &&& content(*old(value)) == Json::Object(members(*map))
                &&& content(*final(value)) == Json::Object(members(*final(map)))
            },
            None => {
                &&& !(content(*old(value)) is Object)
                &&& content(*final(value)) == content(*old(value))
            },
        },
{
    value.as_object_mut()
}

/// `Value::clone`: a value that holds the same.
#[verifier::external_body]
pub(crate) fn copy(value: &Value) -> (same: Value)
    ensures
        content(same) == content(*value),
{
    value.clone()
}

/// `serde_json::Map::new`: no members.
#[verifier::external_body]
pub(crate) fn no_members() -> (map: serde_json::Map<String, Value>)
    ensures
        (members(map) == Map::<Seq<char>, Json>::empty()),
{
    serde_json::Map::new()
}

/// `serde_json::Map::insert`: sets a member, in place of one of the same name.
/// The member that was there before is dropped.
#[verifier::external_body]
pub(crate) fn insert(map: &mut serde_json::Map<String, Value>, key: &str, value: Value)
    ensures
        members(*final(map)) == members(*old(map)).insert(key@, content(value)),
{
    map.insert(key.to_string(), value);
}

/// `serde_json::Map::remove`: takes a member out, where there is one of that
/// name. The member is dropped.
#[verifier::external_body]
pub(crate) fn remove(map: &mut serde_json::Map<String, Value>, key: &str)
    ensures
        members(*final(map)) == members(*old(map)).remove(key@),
{
    map.remove(key);
}

/// `serde_json::Value::Null`.
#[verifier::external_body]
pub(crate) fn null_value() -> (value: Value)
    ensures
        content(value) == Json::Null,
{
    Value::Null
}

/// `serde_json::Value::from` a text.
#[verifier::external_body]
pub(crate) fn text_value(text: &str) -> (value: Value)
    ensures
        content(value) == Json::Text(text@),
{
    Value::from(text)
}

/// `serde_json::Value::from` a `u64`.
#[verifier::external_body]
pub(crate) fn integer_value(number: u64) -> (value: Value)
    ensures
        content(value) == Json::Int(number as int),
{
    Value::from(number)
}

/// `serde_json::Value::Array` of items.
#[verifier::external_body]
pub(crate) fn list_value(items: Vec<Value>) -> (value: Value)
    ensures
        content(value) == Json::List(contents(items@)),
{
    Value::Array(items)
}

/// `serde_json::Value::Object` of members.
#[verifier::external_body]
pub(crate) fn object_value(map: serde_json::Map<String, Value>) -> (value: Value)
    ensures
        content(value) == Json::Object(members(map)),
{
    Value::Object(map)
}

/// The member called `key` of a value that may be missing itself.
pub fn lookup<'a>(value: Option<&'a Value>, key: &str) -> (found: Option<&'a Value>)
    ensures
        content_of(found) == member_of(content_of(value), key@),
{
    match value {
        Some(value) => get(value, key),
        None => None,
    }
}

/// The characters of a text value that may be missing.
pub fn lookup_text(value: Option<&Value>) -> (text: Option<&str>)
    ensures
        crate::strings::text_of(text) == text_in(content_of(value)),
{
    match value {
        Some(value) => as_text(value),
        None => None,
    }
}

/// The number in an integer value that may be missing.
pub fn lookup_integer(value: Option<&Value>) -> (number: Option<i64>)
    ensures
        match number {
            Some(n) => integer_in(content_of(value)) == Some(n as int),
            None => integer_in(content_of(value)) is None,
        },
{
    match value {
        Some(value) => as_integer(value),
        None => None,
    }
}

/// The first item of a list value that may be missing.
pub fn lookup_first(value: Option<&Value>) -> (item: Option<&Value>)
    ensures
        content_of(item) == first_in(content_of(value)),
{
    match value {
        Some(value) => match as_items(value) {
            Some(items) => if items.len() > 0 {
                assert(contents(items@)[0] == content(items@[0]));
                Some(&items[0])
            } else {
                None
            },
            None => None,
        },
        None => None,
    }
}

/// Looking into a value finds what it holds: the member of that name in an
/// object, the first item of a list, the characters of a text, and a number where
/// it fits; and nothing in a value of another kind.
pub proof fn law_lookups_find_what_is_there(
    members: Map<Seq<char>, Json>,
    key: Seq<char>,
    items: Seq<Json>,
    text: Seq<char>,
    n: int,
    json: Json,
)
    ensures
        members.dom().contains(key) ==> member(Json::Object(members), key) == Some(members[key]),
        !members.dom().contains(key) ==> member(Json::Object(members), key) is None,
        !(json is Object) ==> member(json, key) is None,
        member_of(Some(json), key) == member(json, key),
        member_of(None, key) is None,
        items.len() > 0 ==> first_in(Some(Json::List(items))) == Some(items[0]),
        first_in(Some(Json::List(Seq::empty()))) is None,
        !(json is List) ==> first_in(Some(json)) is None,
        text_in(Some(Json::Text(text))) == Some(text),
        !(json is Text) ==> text_in(Some(json)) is None,
        -0x8000_0000_0000_0000 <= n < 0x8000_0000_0000_0000 ==> integer_in(Some(Json::Int(n)))
            == Some(n),
        !(json is Int) ==> integer_in(Some(json)) is None,
        first_in(None) is None,
        text_in(None) is None,
        integer_in(None) is None,
{
}

/// The contents of borrowed values and of lists of values are those of each
/// value.
pub proof fn law_contents_are_those_of_each_value(value: &Value, values: Seq<Value>, i: int)
    ensures
        content_of(Some(value)) == Some(content(*value)),
        content_of(None) is None,
        contents(values).len() == values.len(),
        0 <= i < values.len() ==> contents(values)[i] == content(values[i]),
{
}

} // verus!
