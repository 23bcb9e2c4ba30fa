//! JSON objects and texts, as `serde_json` builds and reads them.

use vstd::prelude::*;

verus! {

/// A JSON value, opaque to the proofs.
#[verifier::external_type_specification]
#[verifier::external_body]
pub struct ExValue(serde_json::Value);

/// A JSON object, opaque to the proofs but for its [`members`].
#[verifier::external_type_specification]
#[verifier::external_body]
#[verifier::reject_recursive_types(K)]
#[verifier::reject_recursive_types(V)]
pub struct ExMap<K, V>(serde_json::Map<K, V>);

/// A JSON value without parts.
pub enum Scalar {
    Flag(bool),
    Text(Seq<char>),
    Number(u64),
}

/// The members of a JSON object that are truth values, texts or whole numbers.
pub uninterp spec fn members(object: serde_json::Map<String, serde_json::Value>) -> Map<
    Seq<char>,
    Scalar,
>;

/// `serde_json::Map::new` makes an object without members.
#[verifier::external_body]
pub(crate) fn new_object() -> (object: serde_json::Map<String, serde_json::Value>)
    ensures
        (members(object) == Map::<Seq<char>, Scalar>::empty()),
{
    serde_json::Map::new()
}

/// `serde_json::Map::insert` with the truth value `Value::Bool` that `Value::from` makes: the key
/// then has this value and no other, and the other members stay.
#[verifier::external_body]
pub(crate) fn insert_flag(
    object: &mut serde_json::Map<String, serde_json::Value>,
    key: &str,
    value: bool,
)
    ensures
        members(*final(object)) == members(*old(object)).insert(key@, Scalar::Flag(value)),
{
    object.insert(key.to_string(), serde_json::Value::from(value));
}

/// `serde_json::Map::insert` with the text `Value::String` that `Value::from` makes: the key then
/// has this value and no other, and the other members stay.
#[verifier::external_body]
pub(crate) fn insert_word(
    object: &mut serde_json::Map<String, serde_json::Value>,
    key: &str,
    value: &str,
)
    ensures
        members(*final(object)) == members(*old(object)).insert(key@, Scalar::Text(value@)),
{
    object.insert(key.to_string(), serde_json::Value::from(value));
}

/// `serde_json::Map::insert` with the number `Value::Number` that `Value::from` makes: the key
/// then has this value and no other, and the other members stay.
#[verifier::external_body]
pub(crate) fn insert_number(
    object: &mut serde_json::Map<String, serde_json::Value>,
    key: &str,
    value: u64,
)
    ensures
        members(*final(object)) == members(*old(object)).insert(key@, Scalar::Number(value)),
{
    object.insert(key.to_string(), serde_json::Value::from(value));
}

/// The truth value of a member of the object that a JSON text writes.
pub uninterp spec fn flag_in(text: Seq<char>, key: Seq<char>) -> Option<bool>;

/// `serde_json::from_str`, `Value::get` and `Value::as_bool`: the truth value that the text gives
/// for the key. There is none where the text is not JSON, does not write an object, or gives the
/// key no truth value. The grammar of JSON is not stated here.
#[verifier::external_body]
pub(crate) fn read_flag(text: &str, key: &str) -> (flag: Option<bool>)
    ensures
        flag == flag_in(text@, key@),
{
    serde_json::from_str::<serde_json::Value>(text).ok()?.get(key)?.as_bool()
}

/// The text of a member of the object that a JSON text writes.
pub uninterp spec fn word_in(text: Seq<char>, key: Seq<char>) -> Option<Seq<char>>;

/// `serde_json::from_str`, `Value::get` and `Value::as_str`: the text that the JSON text gives for
/// the key. There is none where the text is not JSON, does not write an object, or gives the key
/// no text. The grammar of JSON is not stated here.
#[verifier::external_body]
pub(crate) fn read_word(text: &str, key: &str) -> (word: Option<String>)
    ensures
        match word {
            Some(value) => word_in(text@, key@) == Some(value@),
            None => word_in(text@, key@) is None,
        },
{
    Some(serde_json::from_str::<serde_json::Value>(text).ok()?.get(key)?.as_str()?.to_string())
}

} // verus!
