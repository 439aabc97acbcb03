use vstd::prelude::*;

use json::JsonValue;

verus! {

#[verifier::external_type_specification]
#[verifier::external_body]
pub struct ExJsonValue(JsonValue);

/// What a `json::JsonValue` holds. A number is kept as the three fields of
/// `json::number::Number` (`category` 1 is positive, 0 negative, anything
/// above 1 NaN; the value is `mantissa * 10^exponent`); `Short` and
/// `String` are both text; an object lists its entries in insertion order.
pub enum JsonModel {
    Null,
    Boolean(bool),
    Number { category: u8, mantissa: u64, exponent: i16 },
    Text(Seq<char>),
    Array(Seq<JsonModel>),
    Object(Seq<(Seq<char>, JsonModel)>),
}

/// The model of a non-negative integer as `json` converts it.
pub open spec fn json_integer(n: u64) -> JsonModel {
    JsonModel::Number { category: 1, mantissa: n, exponent: 0 }
}

/// What a `json::JsonValue` holds.
pub uninterp spec fn json_model(value: JsonValue) -> JsonModel;

/// The compact text that `json::JsonValue::dump` writes for a value with
/// this model.
pub uninterp spec fn json_text(model: JsonModel) -> Seq<char>;

/// `JsonValue::from(usize)` of `json`: claimed to hold the integer as a
/// positive number with exponent 0 (as `impl_unsigned!` in `number.rs`
/// builds it).
#[verifier::external_body]
pub(crate) fn json_integer_value(n: usize) -> (value: JsonValue)
    ensures
        json_model(value) == json_integer(n as u64),
{
    JsonValue::from(n)
}

/// `JsonValue::new_array` of `json`: claimed to be an empty array.
#[verifier::external_body]
pub(crate) fn json_new_array() -> (value: JsonValue)
    ensures
        json_model(value) == JsonModel::Array(seq![]),
{
    JsonValue::new_array()
}

/// `JsonValue::new_object` of `json`: claimed to be an empty object.
#[verifier::external_body]
pub(crate) fn json_new_object() -> (value: JsonValue)
    ensures
        json_model(value) == JsonModel::Object(seq![]),
{
    JsonValue::new_object()
}

/// `JsonValue::push` of `json`: on an array, claimed to append the item
/// (it pushes onto the array's `Vec`); it fails only on other values, which
/// `requires` rules out.
#[verifier::external_body]
pub(crate) fn json_push(array: &mut JsonValue, item: JsonValue)
    requires
        json_model(*old(array)) is Array,
    ensures
        json_model(*final(array)) == JsonModel::Array(
            json_model(*old(array))->Array_0.push(json_model(item)),
        ),
{
    array.push(item).unwrap()
}

/// `JsonValue::insert` of `json`: on an object that lacks the key, claimed
/// to add the entry after the others (a new key is pushed onto the
/// object's store, which `dump` walks in order); it fails only on values
/// that are not objects, which `requires` rules out.
#[verifier::external_body]
pub(crate) fn json_insert(object: &mut JsonValue, key: &str, value: JsonValue)
    requires
        json_model(*old(object)) is Object,
        forall|i: int|
            0 <= i < json_model(*old(object))->Object_0.len() ==> (#[trigger] json_model(
                *old(object),
            )->Object_0[i]).0 != key@,
    ensures
        json_model(*final(object)) == JsonModel::Object(
            json_model(*old(object))->Object_0.push((key@, json_model(value))),
        ),
{
    object.insert(key, value).unwrap()
}

/// `JsonValue::dump` of `json`: claimed to depend only on what the value
/// holds (its writer reads nothing else), and named `json_text`.
#[verifier::external_body]
pub(crate) fn json_dump(value: &JsonValue) -> (text: String)
    ensures
        text@ == json_text(json_model(*value)),
{
    value.dump()
}

} // verus!
