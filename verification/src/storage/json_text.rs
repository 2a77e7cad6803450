//! The JSON text of values that hold integers only.
use crate::fields::{lemma_values_smaller, lists};
use crate::storage::native_value::{parsed_array, parsed_object};
use crate::value::{held, json_fields, jsons, lemma_array_json, lemma_object_json, Json, JsonValue, Number};
use serde_json::Value;
use vstd::prelude::*;

verus! {

/// The depth to which arrays and objects may be nested in a JSON text that is parsed.
pub const MAX_JSON_DEPTH: u64 = 127;

impl JsonValue {
    /// Whether every number in the value is an integer, of the form that its variant stands for.
    pub open spec fn integral(self) -> bool
        decreases self,
    {
        match self {
            JsonValue::Number(n) => n.proper() && !(n is Float),
            JsonValue::Array(items) => forall|i: int|
                0 <= i < items@.len() ==> (#[trigger] items@[i]).integral(),
            JsonValue::Object(fields) => {
                proof {
                    lemma_values_smaller(fields);
                }
                forall|k: Seq<char>|
                    fields@.dom().contains(k) ==> (#[trigger] fields@[k]).integral()
            },
            _ => true,
        }
    }
}

/// Whether every number in a value is an integer, and arrays and objects are nested at most so
/// deep in it.
pub open spec fn shallow(value: Json, depth: int) -> bool
    decreases depth,
{
    match value {
        Json::Number(n) => n.proper() && !(n is Float),
        Json::Array(items) => depth > 0 && forall|i: int|
            0 <= i < items.len() ==> shallow(#[trigger] items[i], depth - 1),
        Json::Object(fields) => depth > 0 && forall|k: Seq<char>|
            fields.dom().contains(k) ==> shallow(#[trigger] fields[k], depth - 1),
        _ => true,
    }
}

pub proof fn lemma_shallow_integral(value: JsonValue, depth: int)
    requires
        shallow(value@, depth),
    ensures
        value.integral(),
    decreases depth,
{
    match value {
        JsonValue::Array(items) => {
            lemma_array_json(items);
            assert forall|i: int| 0 <= i < items@.len() implies (#[trigger] items@[i]).integral() by {
                let models = value@->Array_0;
                assert(models == jsons(items@));
                assert(shallow(models[i], depth - 1));
                lemma_shallow_integral(items@[i], depth - 1);
            }
        },
        JsonValue::Object(fields) => {
            lemma_object_json(fields);
            assert forall|k: Seq<char>| fields@.dom().contains(k) implies (
            #[trigger] fields@[k]).integral() by {
                let models = value@->Object_0;
                assert(models == json_fields(fields));
                assert(models.dom().contains(k));
                assert(shallow(models[k], depth - 1));
                lemma_shallow_integral(fields@[k], depth - 1);
            }
        },
        _ => {},
    }
}

/// Whether every number in a value is an integer, of the form that its variant stands for.
pub fn is_integral(value: &JsonValue) -> (r: bool)
    ensures
        r == value.integral(),
    decreases value,
{
    match value {
        JsonValue::Number(n) => match *n {
            Number::PosInt(_) => true,
            Number::NegInt(i) => i < 0,
            Number::Float(_) => false,
        },
        JsonValue::Array(items) => {
            let mut i: usize = 0;
            while i < items.len()
                invariant
                    *value == JsonValue::Array(*items),
                    i <= items@.len(),
                    forall|k: int| 0 <= k < i ==> (#[trigger] items@[k]).integral(),
                decreases items@.len() - i,
            {
                assert(decreases_to!(*value => value->Array_0));
                assert(decreases_to!(value->Array_0 => value->Array_0@));
                assert(decreases_to!(items@ => items@[i as int]));
                if !is_integral(&items[i]) {
                    return false;
                }
                i += 1;
            }
            true
        },
        JsonValue::Object(fields) => {
            let n: usize = fields.len();
            let mut i: usize = 0;
            while i < n
                invariant
                    *value == JsonValue::Object(*fields),
                    n == fields.keys().len(),
                    lists(fields.keys(), fields@.dom()),
                    i <= n,
                    forall|j: int|
                        0 <= j < i ==> fields@[#[trigger] fields.keys()[j]].integral(),
                decreases n - i,
            {
                assert(decreases_to!(*value => value->Object_0));
                proof {
                    lemma_values_smaller(*fields);
                }
                if !is_integral(fields.value_at(i)) {
                    assert(fields.keys().contains(fields.keys()[i as int]));
                    assert(!fields@[fields.keys()[i as int]].integral());
                    return false;
                }
                i += 1;
            }
            assert forall|k: Seq<char>| fields@.dom().contains(k) implies (
            #[trigger] fields@[k]).integral() by {
                assert(fields.keys().contains(k));
            }
            true
        },
        _ => true,
    }
}

/// The `serde_json::Value` that holds a value, variant by variant. The numbers are integers, of
/// which `serde_json::Number` keeps the sign and the size.
#[verifier::external_body]
pub(crate) fn value_document(value: &JsonValue) -> (r: Value)
    requires
        value.integral(),
    ensures
        held(r) == value@,
{
    match value {
        JsonValue::Null => Value::Null,
        JsonValue::Bool(b) => Value::Bool(*b),
        JsonValue::Number(Number::PosInt(n)) => Value::from(*n),
        JsonValue::Number(Number::NegInt(n)) => Value::from(*n),
        JsonValue::Number(Number::Float(_)) => Value::Null,
        JsonValue::String(s) => Value::String(s.clone()),
        JsonValue::Array(items) => Value::Array(items.iter().map(value_document).collect()),
        JsonValue::Object(fields) => Value::Object(
            fields.entries.iter().map(|(k, v)| (k.clone(), value_document(v))).collect()),
    }
}

/// Whether bytes parse as the array or the object that a value is.
pub open spec fn parses_as(bytes: Seq<u8>, value: Json) -> bool {
    match value {
        Json::Array(_) => parsed_array(bytes) == Ok::<Json, Seq<char>>(value),
        Json::Object(_) => parsed_object(bytes) == Ok::<Json, Seq<char>>(value),
        _ => true,
    }
}

/// What writing a value as JSON gives: the bytes of the text, or the text of the error.
pub uninterp spec fn json_text(value: Json) -> Result<Seq<u8>, Seq<char>>;

/// `serde_json::to_vec` writes a value as JSON text; the text, or the text of the error, depends
/// on the value alone. An array or an object of values whose numbers are integers is written,
/// and `serde_json::from_slice` reads it back, unless arrays and objects are nested deeper in it
/// than the parser goes.
#[verifier::external_body]
fn write_document(document: &Value) -> (r: Result<Vec<u8>, String>)
    ensures
        match r {
            Ok(bytes) => json_text(held(*document)) == Ok::<Seq<u8>, Seq<char>>(bytes@) && (
            shallow(held(*document), MAX_JSON_DEPTH as int) ==> parses_as(
                bytes@,
                held(*document),
            )),
            Err(message) => json_text(held(*document)) == Err::<Seq<u8>, Seq<char>>(message@)
                && !shallow(held(*document), MAX_JSON_DEPTH as int),
        },
{
    serde_json::to_vec(document).map_err(|error| error.to_string())
}

/// The JSON text of a value whose numbers are integers, or the text of the error.
pub fn json_bytes(value: &JsonValue) -> (r: Result<Vec<u8>, String>)
    requires
        value.integral(),
    ensures
        match r {
            Ok(bytes) => json_text(value@) == Ok::<Seq<u8>, Seq<char>>(bytes@) && (shallow(
                value@,
                MAX_JSON_DEPTH as int,
            ) ==> parses_as(bytes@, value@)),
            Err(message) => json_text(value@) == Err::<Seq<u8>, Seq<char>>(message@) && !shallow(
                value@,
                MAX_JSON_DEPTH as int,
            ),
        },
{
    let document = value_document(value);
    write_document(&document)
}

} // verus!
