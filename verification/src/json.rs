//! JSON documents, held as text, and the scalars in them.

use serde_json::Value;
use vstd::prelude::*;

verus! {

/// A JSON number, by what it is as each kind of number.
#[derive(Clone, Copy, Debug, PartialEq, Eq, Structural)]
pub struct JsonNumber {
    /// The number as a signed integer, where it is one.
    pub signed: Option<i64>,
    /// The number as an unsigned integer, where it is one.
    pub unsigned: Option<u64>,
    /// Bit pattern of the number as a binary64 floating-point number.
    pub double_bits: Option<u64>,
}

/// A JSON value; what an array or an object holds is not kept.
#[derive(Debug, PartialEq, Eq)]
pub enum JsonValue {
    /// `null`.
    Null,
    /// `true` or `false`.
    Bool(bool),
    /// A number.
    Number(JsonNumber),
    /// A text.
    Text(String),
    /// An array.
    Array,
    /// An object.
    Object,
}

/// A field of a JSON object.
#[derive(Debug, PartialEq, Eq)]
pub struct JsonField {
    /// Name of the field.
    pub name: String,
    /// Value of the field.
    pub value: JsonValue,
    /// The value in JSON notation.
    pub notation: String,
}

/// Model of a JSON value.
#[verifier::ext_equal]
pub enum JsonModel {
    Null,
    Bool(bool),
    Number(JsonNumber),
    Text(Seq<char>),
    Array,
    Object,
}

/// Model of a field of a JSON object.
#[verifier::ext_equal]
pub struct FieldModel {
    pub name: Seq<char>,
    pub value: JsonModel,
    pub notation: Seq<char>,
}

impl View for JsonValue {
    type V = JsonModel;

    open spec fn view(&self) -> JsonModel {
        match self {
            JsonValue::Null => JsonModel::Null,
            JsonValue::Bool(value) => JsonModel::Bool(*value),
            JsonValue::Number(value) => JsonModel::Number(*value),
            JsonValue::Text(value) => JsonModel::Text(value@),
            JsonValue::Array => JsonModel::Array,
            JsonValue::Object => JsonModel::Object,
        }
    }
}

impl View for JsonField {
    type V = FieldModel;

    open spec fn view(&self) -> FieldModel {
        FieldModel { name: self.name@, value: self.value@, notation: self.notation@ }
    }
}

/// Models of the fields of a JSON object.
pub open spec fn fields_model(fields: Seq<JsonField>) -> Seq<FieldModel> {
    Seq::new(fields.len(), |i: int| fields[i]@)
}

/// The notation in which `serde_json` writes the document that a text holds, or why the
/// text is no JSON document.
pub uninterp spec fn json_notation(text: Seq<char>) -> Result<Seq<char>, Seq<char>>;

/// The fields of the object that `serde_json` finds in a text, in the order in which they
/// are walked; nothing where the text holds another value or is no JSON document.
pub uninterp spec fn json_fields(text: Seq<char>) -> Option<Seq<FieldModel>>;

/// A text that stands for a JSON document, as `serde_json` writes the document; a text that
/// stands for none is left alone.
pub open spec fn json_rewritten(text: Seq<char>) -> Seq<char> {
    match json_notation(text) {
        Ok(notation) => notation,
        Err(_) => text,
    }
}

/// Whether a text is a JSON document in the notation in which `serde_json` writes it.
pub open spec fn in_json_notation(text: Seq<char>) -> bool {
    json_notation(text) == Ok::<Seq<char>, Seq<char>>(text)
}

/// The fields of the object that a text holds; none where it holds no object.
pub open spec fn json_object_fields(text: Seq<char>) -> Seq<FieldModel> {
    match json_fields(text) {
        Some(fields) => fields,
        None => Seq::empty(),
    }
}

/// Whether no two fields have the same name.
pub open spec fn distinct_names(fields: Seq<FieldModel>) -> bool {
    forall|i: int, j: int|
        0 <= i < j < fields.len() ==> (#[trigger] fields[i]).name != (#[trigger] fields[j]).name
}

/// The outcome of a call that hands out a text or says why there is none, by its models.
pub open spec fn text_outcome(outcome: Result<String, String>) -> Result<Seq<char>, Seq<char>> {
    match outcome {
        Ok(text) => Ok(text@),
        Err(message) => Err(message@),
    }
}

/// Parse a text by `serde_json::from_str` for its `Value`, and write the value out again by
/// its `to_string`. The outcome depends on the text alone. That what is written is read as
/// the same is not claimed: of some floating-point numbers it does not hold.
#[verifier::external_body]
pub(crate) fn normalize_json(text: &str) -> (outcome: Result<String, String>)
    ensures
        text_outcome(outcome) == json_notation(text@),
{
    serde_json::from_str(text)
        .map(|value: Value| value.to_string())
        .map_err(|error| error.to_string())
}

/// Parse a text by `serde_json::from_str` for its `Value`, and hand out the fields of an
/// object as plain values, each with what its `to_string` writes. The outcome depends on the
/// text alone, and the `Map` of an object holds each name once.
#[verifier::external_body]
pub(crate) fn parse_fields(text: &str) -> (outcome: Option<Vec<JsonField>>)
    ensures
        match outcome {
            Some(fields) => json_fields(text@) == Some(fields_model(fields@)) && distinct_names(
                fields_model(fields@),
            ),
            None => json_fields(text@) is None,
        },
{
    match serde_json::from_str(text) {
        Ok(Value::Object(fields)) => Some(fields.into_iter().map(|(name, value)| JsonField {
            name, notation: value.to_string(),
            value: match value {
                Value::Null => JsonValue::Null,
                Value::Bool(held) => JsonValue::Bool(held),
                Value::Number(held) => JsonValue::Number(JsonNumber { signed: held.as_i64(), unsigned: held.as_u64(), double_bits: held.as_f64().map(|double| double.to_bits()) }),
                Value::String(held) => JsonValue::Text(held),
                Value::Array(_) => JsonValue::Array,
                Value::Object(_) => JsonValue::Object,
            },
        }).collect()),
        _ => None,
    }
}

/// Bit pattern of the binary64 floating-point number that an integer is converted to.
pub uninterp spec fn nearest_double(value: int) -> u64;

/// The JSON number that a signed integer is, as its model.
pub open spec fn signed_number(value: i64) -> JsonNumber {
    JsonNumber {
        signed: Some(value),
        unsigned: if value >= 0 {
            Some(value as u64)
        } else {
            None
        },
        double_bits: Some(nearest_double(value as int)),
    }
}

/// The JSON number that an unsigned integer is, as its model.
pub open spec fn unsigned_number(value: u64) -> JsonNumber {
    JsonNumber {
        signed: if value <= i64::MAX {
            Some(value as i64)
        } else {
            None
        },
        unsigned: Some(value),
        double_bits: Some(nearest_double(value as int)),
    }
}

/// The `serde_json::Number` made of a signed integer by `From`, by what it is as each kind of
/// number: the integer itself, as an unsigned integer where it is not negative, and converted to
/// a binary64 number by its `as_f64`, which depends on the integer alone.
#[verifier::external_body]
pub(crate) fn number_from_signed(value: i64) -> (number: JsonNumber)
    ensures
        number.signed == Some(value),
        value >= 0 ==> number.unsigned == Some(value as u64),
        value < 0 ==> number.unsigned is None,
        number.double_bits == Some(nearest_double(value as int)),
{
    let held = serde_json::Number::from(value);
    JsonNumber {
        signed: held.as_i64(),
        unsigned: held.as_u64(),
        double_bits: held.as_f64().map(|double| double.to_bits()),
    }
}

/// The `serde_json::Number` made of an unsigned integer by `From`, by what it is as each kind of
/// number: the integer itself, as a signed integer where it is small enough, and converted to a
/// binary64 number by its `as_f64`, which depends on the integer alone.
#[verifier::external_body]
pub(crate) fn number_from_unsigned(value: u64) -> (number: JsonNumber)
    ensures
        number.unsigned == Some(value),
        value <= i64::MAX ==> number.signed == Some(value as i64),
        value > i64::MAX ==> number.signed is None,
        number.double_bits == Some(nearest_double(value as int)),
{
    let held = serde_json::Number::from(value);
    JsonNumber {
        signed: held.as_i64(),
        unsigned: held.as_u64(),
        double_bits: held.as_f64().map(|double| double.to_bits()),
    }
}

/// Whether a bit pattern is that of a finite binary64 number: its exponent is not all ones.
pub open spec fn is_finite_double(bits: u64) -> bool {
    (bits / 0x10_0000_0000_0000) % 0x800 != 0x7ff
}

/// The JSON number that a binary64 number is, as its model; infinities and what is no number are
/// none.
pub open spec fn double_number(bits: u64) -> Option<JsonNumber> {
    if is_finite_double(bits) {
        Some(JsonNumber { signed: None, unsigned: None, double_bits: Some(bits) })
    } else {
        None
    }
}

/// The JSON number that a binary64 number is; infinities and what is no number are none.
pub fn number_from_double(bits: u64) -> (number: Option<JsonNumber>)
    ensures
        number == double_number(bits),
{
    if (bits / 0x10_0000_0000_0000) % 0x800 != 0x7ff {
        Some(JsonNumber { signed: None, unsigned: None, double_bits: Some(bits) })
    } else {
        None
    }
}

/// Whether a number is one that a JSON document can hold.
pub open spec fn is_json_number(number: JsonNumber) -> bool {
    match (number.signed, number.unsigned, number.double_bits) {
        (Some(value), _, _) => number == signed_number(value),
        (None, Some(value), _) => number == unsigned_number(value),
        (None, None, Some(bits)) => is_finite_double(bits),
        (None, None, None) => false,
    }
}

/// A text that stands for a JSON document, as `serde_json` writes the document; a text that
/// stands for none is left alone.
pub fn rewrite_json(text: String) -> (rewritten: String)
    ensures
        rewritten@ == json_rewritten(text@),
{
    match normalize_json(&text) {
        Ok(notation) => notation,
        Err(_) => text,
    }
}

/// The fields of the object that a text holds; none where it holds no object.
pub fn object_fields(text: &str) -> (fields: Vec<JsonField>)
    ensures
        fields_model(fields@) == json_object_fields(text@),
        distinct_names(fields_model(fields@)),
{
    match parse_fields(text) {
        Some(fields) => fields,
        None => {
            let none: Vec<JsonField> = Vec::new();
            assert(fields_model(none@) =~= Seq::empty());
            none
        },
    }
}

/// A bit pattern is a JSON number exactly when, its sign left out, it is below that of infinity; it
/// is then no integer.
pub proof fn law_finite_doubles_are_numbers(bits: u64)
    ensures
        double_number(bits) is Some <==> bits % 0x8000_0000_0000_0000 < 0x7ff0_0000_0000_0000,
        double_number(bits) matches Some(number) ==> number.double_bits == Some(bits)
            && number.signed is None && number.unsigned is None,
{
    assert(bits / 0x10_0000_0000_0000 % 0x800 == (bits % 0x8000_0000_0000_0000)
        / 0x10_0000_0000_0000) by (bit_vector);
}

/// What is a JSON document is written in one notation, and what is none is left alone; what holds
/// no object has no fields.
pub proof fn law_documents_alone_are_rewritten(text: Seq<char>)
    ensures
        json_notation(text) matches Ok(notation) ==> json_rewritten(text) == notation,
        json_notation(text) is Err ==> json_rewritten(text) == text,
        json_fields(text) is None ==> json_object_fields(text).len() == 0,
        json_fields(text) matches Some(fields) ==> json_object_fields(text) == fields,
{
}

} // verus!
