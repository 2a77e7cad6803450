//! JSON values: the type that records, filters and payloads are made of, and its model.
use crate::fields::{key_order, lists, lemma_values_smaller, TextMap};
use crate::text::{opt_str, same};
use serde_json::Value;
use vstd::prelude::*;

pub mod laws;

verus! {

/// A JSON number: an integer that is not negative, a negative integer, or a double-precision
/// number given by its bits.
#[derive(Debug, Clone, Copy, PartialEq, Eq, Structural)]
pub enum Number {
    PosInt(u64),
    NegInt(i64),
    Float(u64),
}

/// A JSON value.
#[derive(Debug, PartialEq, Eq)]
pub enum JsonValue {
    Null,
    Bool(bool),
    Number(Number),
    String(String),
    Array(Vec<JsonValue>),
    Object(TextMap<JsonValue>),
}

/// The model of a JSON value.
#[verifier::ext_equal]
pub enum Json {
    Null,
    Bool(bool),
    Number(Number),
    Text(Seq<char>),
    Array(Seq<Json>),
    Object(Map<Seq<char>, Json>),
}

impl Number {
    /// The number as a signed integer, where it is one.
    pub open spec fn signed(self) -> Option<int> {
        match self {
            Number::PosInt(n) => if n <= i64::MAX {
                Some(n as int)
            } else {
                None
            },
            Number::NegInt(n) => Some(n as int),
            Number::Float(_) => None,
        }
    }

    /// The number as an unsigned integer, where it is one.
    pub open spec fn unsigned(self) -> Option<int> {
        match self {
            Number::PosInt(n) => Some(n as int),
            _ => None,
        }
    }

    /// Whether the number is of the form that its variant stands for.
    pub open spec fn proper(self) -> bool {
        match self {
            Number::PosInt(_) => true,
            Number::NegInt(n) => n < 0,
            Number::Float(bits) => finite(bits),
        }
    }

    pub fn from_u64(n: u64) -> (r: Self)
        ensures
            r == Number::PosInt(n),
            r.proper(),
    {
        Number::PosInt(n)
    }

    pub fn from_i64(n: i64) -> (r: Self)
        ensures
            r.signed() == Some(n as int),
            r.proper(),
    {
        if n < 0 {
            Number::NegInt(n)
        } else {
            Number::PosInt(n as u64)
        }
    }

    /// The number with the given bits, unless they stand for an infinity or for no number.
    pub fn from_float_bits(bits: u64) -> (r: Option<Self>)
        ensures
            r == (if finite(bits) {
                Some(Number::Float(bits))
            } else {
                None
            }),
    {
        if (bits >> 52) & 0x7ff != 0x7ff {
            Some(Number::Float(bits))
        } else {
            None
        }
    }

    pub fn as_i64(&self) -> (r: Option<i64>)
        ensures
            match r {
                Some(n) => self.signed() == Some(n as int),
                None => self.signed() is None,
            },
    {
        match *self {
            Number::PosInt(n) => if n <= i64::MAX as u64 {
                Some(n as i64)
            } else {
                None
            },
            Number::NegInt(n) => Some(n),
            Number::Float(_) => None,
        }
    }

    pub fn as_u64(&self) -> (r: Option<u64>)
        ensures
            match r {
                Some(n) => self.unsigned() == Some(n as int),
                None => self.unsigned() is None,
            },
    {
        match *self {
            Number::PosInt(n) => Some(n),
            _ => None,
        }
    }
}

/// Whether the bits of a double-precision number stand for a finite number: the exponent is not
/// all ones.
pub open spec fn finite(bits: u64) -> bool {
    (bits >> 52) & 0x7ff != 0x7ff
}

impl JsonValue {
    /// The model of the value.
    pub open spec fn json(self) -> Json
        decreases self,
    {
        match self {
            JsonValue::Null => Json::Null,
            JsonValue::Bool(b) => Json::Bool(b),
            JsonValue::Number(n) => Json::Number(n),
            JsonValue::String(s) => Json::Text(s@),
            JsonValue::Array(items) => Json::Array(
                Seq::new(
                    items@.len(),
                    |i: int|
                        if 0 <= i < items@.len() {
                            items@[i].json()
                        } else {
                            Json::Null
                        },
                ),
            ),
            JsonValue::Object(fields) => {
                proof {
                    lemma_values_smaller(fields);
                }
                Json::Object(
                    Map::new(
                        |k: Seq<char>| fields@.dom().contains(k),
                        |k: Seq<char>|
                            if fields@.dom().contains(k) {
                                fields@[k].json()
                            } else {
                                Json::Null
                            },
                    ),
                )
            },
        }
    }
}

impl View for JsonValue {
    type V = Json;

    open spec fn view(&self) -> Json {
        self.json()
    }
}

/// The models of a sequence of values.
pub open spec fn jsons(values: Seq<JsonValue>) -> Seq<Json> {
    Seq::new(values.len(), |i: int| values[i]@)
}

/// The model of the fields of an object.
pub open spec fn json_fields(fields: TextMap<JsonValue>) -> Map<Seq<char>, Json> {
    Map::new(|k: Seq<char>| fields@.dom().contains(k), |k: Seq<char>| fields@[k]@)
}

pub broadcast proof fn lemma_array_json(items: Vec<JsonValue>)
    ensures
        #[trigger] JsonValue::Array(items).json() == Json::Array(jsons(items@)),
{
    assert(JsonValue::Array(items).json()->Array_0 =~= jsons(items@));
}

pub broadcast proof fn lemma_object_json(fields: TextMap<JsonValue>)
    ensures
        #[trigger] JsonValue::Object(fields).json() == Json::Object(json_fields(fields)),
{
    assert(JsonValue::Object(fields).json()->Object_0 =~= json_fields(fields));
}

impl Json {
    /// The field with the key, where the value is an object that has it.
    pub open spec fn get(self, key: Seq<char>) -> Option<Json> {
        match self {
            Json::Object(fields) => if fields.dom().contains(key) {
                Some(fields[key])
            } else {
                None
            },
            _ => None,
        }
    }

    pub open spec fn text(self) -> Option<Seq<char>> {
        match self {
            Json::Text(s) => Some(s),
            _ => None,
        }
    }

    pub open spec fn boolean(self) -> Option<bool> {
        match self {
            Json::Bool(b) => Some(b),
            _ => None,
        }
    }

    pub open spec fn unsigned(self) -> Option<int> {
        match self {
            Json::Number(n) => n.unsigned(),
            _ => None,
        }
    }

    pub open spec fn signed(self) -> Option<int> {
        match self {
            Json::Number(n) => n.signed(),
            _ => None,
        }
    }

    /// The text of the field with the key.
    pub open spec fn get_text(self, key: Seq<char>) -> Option<Seq<char>> {
        match self.get(key) {
            Some(v) => v.text(),
            None => None,
        }
    }

    /// The keys of the fields in ascending order.
    pub open spec fn keys(self) -> Seq<Seq<char>> {
        match self {
            Json::Object(fields) => key_order(fields.dom()),
            _ => Seq::empty(),
        }
    }
}

/// The model of an optional value.
pub open spec fn opt_json(v: Option<&JsonValue>) -> Option<Json> {
    match v {
        Some(x) => Some(x@),
        None => None,
    }
}

/// The model of an optional owned value.
pub open spec fn opt_value(v: Option<JsonValue>) -> Option<Json> {
    match v {
        Some(x) => Some(x@),
        None => None,
    }
}

impl Clone for JsonValue {
    fn clone(&self) -> (r: Self)
        ensures
            r@ == self@,
        decreases self,
    {
        match self {
            JsonValue::Null => JsonValue::Null,
            JsonValue::Bool(b) => JsonValue::Bool(*b),
            JsonValue::Number(n) => JsonValue::Number(*n),
            JsonValue::String(s) => JsonValue::String(s.clone()),
            JsonValue::Array(items) => {
                let mut out: Vec<JsonValue> = Vec::new();
                let mut i: usize = 0;
                while i < items.len()
                    invariant
                        *self == JsonValue::Array(*items),
                        i <= items@.len(),
                        out@.len() == i,
                        forall|k: int| 0 <= k < i ==> out@[k]@ == items@[k]@,
                    decreases items@.len() - i,
                {
                    assert(decreases_to!(*self => self->Array_0));
                    assert(decreases_to!(self->Array_0 => self->Array_0@));
                    assert(decreases_to!(items@ => items@[i as int]));
                    out.push(items[i].clone());
                    i += 1;
                }
                proof {
                    lemma_array_json(out);
                    lemma_array_json(*items);
                    assert(jsons(out@) =~= jsons(items@));
                }
                JsonValue::Array(out)
            },
            JsonValue::Object(fields) => {
                let mut out: TextMap<JsonValue> = TextMap::new();
                let mut i: usize = 0;
                let n: usize = fields.len();
                proof {
                    lemma_object_json(*fields);
                }
                while i < n
                    invariant
                        *self == JsonValue::Object(*fields),
                        n == fields.keys().len(),
                        lists(fields.keys(), fields@.dom()),
                        i <= n,
                        forall|k: Seq<char>| #[trigger] out@.dom().contains(k) ==> fields@.dom().contains(k)
                            && out@[k]@ == fields@[k]@,
                        forall|j: int| 0 <= j < i ==> out@.dom().contains(#[trigger] fields.keys()[j]),
                    decreases n - i,
                {
                    assert(decreases_to!(*self => self->Object_0));
                    proof {
                        lemma_values_smaller(*fields);
                    }
                    let copy = fields.value_at(i).clone();
                    out.insert(fields.key_at(i).clone(), copy);
                    i += 1;
                }
                proof {
                    assert forall|k: Seq<char>| fields@.dom().contains(k) implies out@.dom().contains(k) by {
                        assert(fields.keys().contains(k));
                    }
                    lemma_object_json(out);
                    assert(json_fields(out) =~= json_fields(*fields));
                }
                JsonValue::Object(out)
            },
        }
    }
}

impl JsonValue {
    /// The field with the key, where the value is an object that has it.
    pub fn get(&self, key: &str) -> (r: Option<&JsonValue>)
        ensures
            opt_json(r) == self@.get(key@),
            r matches Some(v) ==> decreases_to!(*self => *v),
    {
        match self {
            JsonValue::Object(fields) => {
                proof {
                    lemma_object_json(*fields);
                    lemma_values_smaller(*fields);
                    assert(decreases_to!(*self => self->Object_0));
                }
                fields.get(key)
            },
            _ => None,
        }
    }

    pub fn as_str(&self) -> (r: Option<&str>)
        ensures
            opt_str(r) == self@.text(),
    {
        match self {
            JsonValue::String(s) => Some(s.as_str()),
            _ => None,
        }
    }

    pub fn as_bool(&self) -> (r: Option<bool>)
        ensures
            r == self@.boolean(),
    {
        match self {
            JsonValue::Bool(b) => Some(*b),
            _ => None,
        }
    }

    pub fn as_u64(&self) -> (r: Option<u64>)
        ensures
            match r {
                Some(n) => self@.unsigned() == Some(n as int),
                None => self@.unsigned() is None,
            },
    {
        match self {
            JsonValue::Number(n) => n.as_u64(),
            _ => None,
        }
    }

    pub fn as_i64(&self) -> (r: Option<i64>)
        ensures
            match r {
                Some(n) => self@.signed() == Some(n as int),
                None => self@.signed() is None,
            },
    {
        match self {
            JsonValue::Number(n) => n.as_i64(),
            _ => None,
        }
    }

    pub fn as_array(&self) -> (r: Option<&Vec<JsonValue>>)
        ensures
            match r {
                Some(items) => self@ == Json::Array(jsons(items@)) && *self == JsonValue::Array(*items),
                None => !(self@ is Array),
            },
    {
        match self {
            JsonValue::Array(items) => {
                proof {
                    lemma_array_json(*items);
                }
                Some(items)
            },
            _ => None,
        }
    }

    pub fn is_object(&self) -> (r: bool)
        ensures
            r == (self@ is Object),
    {
        matches!(self, JsonValue::Object(_))
    }

    /// The text of the field with the key.
    pub fn get_str(&self, key: &str) -> (r: Option<&str>)
        ensures
            opt_str(r) == self@.get_text(key@),
    {
        match self.get(key) {
            Some(v) => v.as_str(),
            None => None,
        }
    }

    /// The string value with the given text.
    pub fn text(s: &str) -> (r: JsonValue)
        ensures
            r@ == Json::Text(s@),
    {
        JsonValue::String(crate::text::owned(s))
    }

    /// The object with the given fields.
    pub fn object(fields: TextMap<JsonValue>) -> (r: JsonValue)
        ensures
            r@ == Json::Object(json_fields(fields)),
    {
        proof {
            lemma_object_json(fields);
        }
        JsonValue::Object(fields)
    }

    /// The array of the given items.
    pub fn array(items: Vec<JsonValue>) -> (r: JsonValue)
        ensures
            r@ == Json::Array(jsons(items@)),
    {
        proof {
            lemma_array_json(items);
        }
        JsonValue::Array(items)
    }

    /// The number of an unsigned integer.
    pub fn unsigned(n: u64) -> (r: JsonValue)
        ensures
            r@ == Json::Number(Number::PosInt(n)),
    {
        JsonValue::Number(Number::PosInt(n))
    }
}

/// Inserting a field into an object inserts its model into the model.
pub broadcast proof fn lemma_fields_insert(
    before: TextMap<JsonValue>,
    after: TextMap<JsonValue>,
    key: Seq<char>,
    value: JsonValue,
)
    requires
        after@ == #[trigger] before@.insert(key, value),
    ensures
        #[trigger] json_fields(after) == json_fields(before).insert(key, value@),
{
    assert(json_fields(after) =~= json_fields(before).insert(key, value@));
}

/// Removing a field from an object removes its model from the model.
pub broadcast proof fn lemma_fields_remove(
    before: TextMap<JsonValue>,
    after: TextMap<JsonValue>,
    key: Seq<char>,
)
    requires
        after@ == #[trigger] before@.remove(key),
    ensures
        #[trigger] json_fields(after) == json_fields(before).remove(key),
{
    assert(json_fields(after) =~= json_fields(before).remove(key));
}

/// An object without fields has the empty model.
pub broadcast proof fn lemma_fields_empty(fields: TextMap<JsonValue>)
    requires
        #[trigger] fields@ == Map::<Seq<char>, JsonValue>::empty(),
    ensures
        json_fields(fields) == Map::<Seq<char>, Json>::empty(),
{
    assert(json_fields(fields) =~= Map::<Seq<char>, Json>::empty());
}

pub broadcast group group_value {
    lemma_array_json,
    lemma_object_json,
    lemma_fields_insert,
    lemma_fields_remove,
    lemma_fields_empty,
}

/// A copy of the fields of an object.
pub fn copy_fields(fields: &TextMap<JsonValue>) -> (r: TextMap<JsonValue>)
    ensures
        json_fields(r) == json_fields(*fields),
{
    let mut out: TextMap<JsonValue> = TextMap::new();
    let mut i: usize = 0;
    let n: usize = fields.len();
    while i < n
        invariant
            n == fields.keys().len(),
            lists(fields.keys(), fields@.dom()),
            i <= n,
            forall|k: Seq<char>| #[trigger]
                out@.dom().contains(k) ==> fields@.dom().contains(k) && out@[k]@ == fields@[k]@,
            forall|j: int| 0 <= j < i ==> out@.dom().contains(#[trigger] fields.keys()[j]),
        decreases n - i,
    {
        let copy = fields.value_at(i).clone();
        out.insert(fields.key_at(i).clone(), copy);
        i += 1;
    }
    proof {
        assert forall|k: Seq<char>| fields@.dom().contains(k) implies out@.dom().contains(k) by {
            assert(fields.keys().contains(k));
        }
        assert(json_fields(out) =~= json_fields(*fields));
    }
    out
}

/// Those of the first `n` items that are not the text.
pub open spec fn without_text(items: Seq<Json>, text: Seq<char>, n: int) -> Seq<Json>
    decreases n,
{
    if n <= 0 {
        Seq::empty()
    } else if items[n - 1] == Json::Text(text) {
        without_text(items, text, n - 1)
    } else {
        without_text(items, text, n - 1).push(items[n - 1])
    }
}

/// Whether a value is the text.
pub fn is_text(value: &JsonValue, text: &str) -> (r: bool)
    ensures
        r == (value@ == Json::Text(text@)),
{
    match value.as_str() {
        Some(s) => same(s, text),
        None => false,
    }
}

/// The items that are not the text.
pub fn drop_text(items: Vec<JsonValue>, text: &str) -> (r: Vec<JsonValue>)
    ensures
        jsons(r@) == without_text(jsons(items@), text@, items@.len() as int),
{
    let ghost before = jsons(items@);
    let mut kept: Vec<JsonValue> = Vec::new();
    let mut i: usize = 0;
    assert(jsons(kept@) =~= without_text(before, text@, 0));
    while i < items.len()
        invariant
            i <= items.len(),
            before == jsons(items@),
            jsons(kept@) == without_text(before, text@, i as int),
        decreases items.len() - i,
    {
        assert(before[i as int] == items@[i as int]@);
        if !is_text(&items[i], text) {
            let ghost so_far = jsons(kept@);
            let copy = items[i].clone();
            let ghost a = copy@;
            kept.push(copy);
            assert(jsons(kept@) =~= so_far.push(a));
        }
        i = i + 1;
    }
    kept
}

/// Whether two double-precision numbers, given by their bits, compare as equal: neither is a
/// NaN, and they have the same bits or are both zero.
pub open spec fn float_same(a: u64, b: u64) -> bool {
    &&& !is_nan(a)
    &&& a == b || (a << 1) == 0 && (b << 1) == 0
}

/// Whether the bits stand for no number: the exponent is all ones and the fraction is not zero.
pub open spec fn is_nan(bits: u64) -> bool {
    (bits >> 52) & 0x7ff == 0x7ff && bits & 0xf_ffff_ffff_ffff != 0
}

/// Whether two numbers compare as equal: both of the same variant, with the same value.
pub open spec fn number_same(a: Number, b: Number) -> bool {
    match (a, b) {
        (Number::PosInt(x), Number::PosInt(y)) => x == y,
        (Number::NegInt(x), Number::NegInt(y)) => x == y,
        (Number::Float(x), Number::Float(y)) => float_same(x, y),
        _ => false,
    }
}

/// Whether two values compare as equal.
pub open spec fn json_same(a: Json, b: Json) -> bool
    decreases a,
{
    match (a, b) {
        (Json::Null, Json::Null) => true,
        (Json::Bool(x), Json::Bool(y)) => x == y,
        (Json::Number(x), Json::Number(y)) => number_same(x, y),
        (Json::Text(x), Json::Text(y)) => x == y,
        (Json::Array(x), Json::Array(y)) => x.len() == y.len() && forall|i: int|
            0 <= i < x.len() ==> json_same(#[trigger] x[i], y[i]),
        (Json::Object(x), Json::Object(y)) => x.dom().finite() && x.dom() == y.dom() && forall|
            k: Seq<char>,
        |
            #[trigger] x.dom().contains(k) ==> json_same(x[k], y[k]),
        _ => false,
    }
}

fn same_number(a: &Number, b: &Number) -> (r: bool)
    ensures
        r == number_same(*a, *b),
{
    match (a, b) {
        (Number::PosInt(x), Number::PosInt(y)) => *x == *y,
        (Number::NegInt(x), Number::NegInt(y)) => *x == *y,
        (Number::Float(x), Number::Float(y)) => {
            let nan = (*x >> 52) & 0x7ff == 0x7ff && *x & 0xf_ffff_ffff_ffff != 0;
            !nan && (*x == *y || ((*x << 1) == 0 && (*y << 1) == 0))
        },
        _ => false,
    }
}

/// Whether two values compare as equal.
pub fn same_value(a: &JsonValue, b: &JsonValue) -> (r: bool)
    ensures
        r == json_same(a@, b@),
    decreases a,
{
    broadcast use {lemma_array_json, lemma_object_json};

    match (a, b) {
        (JsonValue::Null, JsonValue::Null) => true,
        (JsonValue::Bool(x), JsonValue::Bool(y)) => *x == *y,
        (JsonValue::Number(x), JsonValue::Number(y)) => same_number(x, y),
        (JsonValue::String(x), JsonValue::String(y)) => same(x.as_str(), y.as_str()),
        (JsonValue::Array(x), JsonValue::Array(y)) => {
            if x.len() != y.len() {
                return false;
            }
            let mut i: usize = 0;
            while i < x.len()
                invariant
                    *a == JsonValue::Array(*x),
                    a@ == Json::Array(jsons(x@)),
                    b@ == Json::Array(jsons(y@)),
                    i <= x@.len() == y@.len(),
                    forall|k: int| 0 <= k < i ==> json_same(#[trigger] jsons(x@)[k], jsons(y@)[k]),
                decreases x@.len() - i,
            {
                assert(decreases_to!(*a => a->Array_0));
                assert(decreases_to!(a->Array_0 => a->Array_0@));
                assert(decreases_to!(x@ => x@[i as int]));
                if !same_value(&x[i], &y[i]) {
                    assert(!json_same(jsons(x@)[i as int], jsons(y@)[i as int]));
                    return false;
                }
                i += 1;
            }
            true
        },
        (JsonValue::Object(x), JsonValue::Object(y)) => {
            let n: usize = x.len();
            let m: usize = y.len();
            let ghost fx = json_fields(*x);
            let ghost fy = json_fields(*y);
            assert(fx.dom() =~= x@.dom());
            assert(fy.dom() =~= y@.dom());
            let mut i: usize = 0;
            while i < m
                invariant
                    a@ == Json::Object(fx),
                    b@ == Json::Object(fy),
                    m == y.keys().len(),
                    lists(y.keys(), y@.dom()),
                    fx.dom() == x@.dom(),
                    fy.dom() == y@.dom(),
                    i <= m,
                    forall|j: int| 0 <= j < i ==> x@.dom().contains(#[trigger] y.keys()[j]),
                decreases m - i,
            {
                if !x.contains_key(y.key_at(i).as_str()) {
                    assert(!(fx.dom() =~= fy.dom()));
                    return false;
                }
                i += 1;
            }
            assert forall|k: Seq<char>| #[trigger] y@.dom().contains(k) implies x@.dom().contains(k) by {
                assert(y.keys().contains(k));
            }
            let mut i: usize = 0;
            while i < n
                invariant
                    *a == JsonValue::Object(*x),
                    a@ == Json::Object(fx),
                    b@ == Json::Object(fy),
                    fx == json_fields(*x),
                    fy == json_fields(*y),
                    fx.dom() == x@.dom(),
                    fy.dom() == y@.dom(),
                    n == x.keys().len(),
                    lists(x.keys(), x@.dom()),
                    i <= n,
                    forall|j: int| 0 <= j < i ==> y@.dom().contains(#[trigger] x.keys()[j]) && json_same(
                        fx[x.keys()[j]],
                        fy[x.keys()[j]],
                    ),
                decreases n - i,
            {
                assert(decreases_to!(*a => a->Object_0));
                proof {
                    lemma_values_smaller(*x);
                }
                let key = x.key_at(i);
                match y.get(key.as_str()) {
                    Some(other) => {
                        if !same_value(x.value_at(i), other) {
                            assert(!json_same(fx[key@], fy[key@]));
                            return false;
                        }
                    },
                    None => {
                        assert(!(fx.dom() =~= fy.dom()));
                        return false;
                    },
                }
                i += 1;
            }
            proof {
                assert forall|k: Seq<char>| #[trigger] fx.dom().contains(k) implies fy.dom().contains(k)
                    && json_same(fx[k], fy[k]) by {
                    assert(x.keys().contains(k));
                }
                assert(fx.dom() =~= fy.dom());
            }
            true
        },
        _ => false,
    }
}

/// The value that a parsed JSON document holds.
pub uninterp spec fn held(document: Value) -> Json;

/// What parsing bytes as JSON gives: the value, or the text of the error.
pub uninterp spec fn parsed_json(bytes: Seq<u8>) -> Result<Json, Seq<char>>;

#[verifier::external_type_specification]
#[verifier::external_body]
pub struct ExJsonDocument(Value);

/// `serde_json::from_slice` parses bytes as one JSON document, or reports an error; which of
/// the two, the document and the text of the error depend on the bytes alone.
#[verifier::external_body]
fn parse_document(bytes: &[u8]) -> (r: Result<Value, String>)
    ensures
        match r {
            Ok(document) => parsed_json(bytes@) == Ok::<Json, Seq<char>>(held(document)),
            Err(message) => parsed_json(bytes@) == Err::<Json, Seq<char>>(message@),
        },
{
    serde_json::from_slice(bytes).map_err(|error| error.to_string())
}

/// The value that a `serde_json::Value` holds, variant by variant. The integers of
/// `serde_json::Number` are told apart by `as_u64` and `as_i64`; what is neither is a
/// double-precision number, whose bits are kept. `serde_json::Map` hands its entries out in
/// ascending order of their keys, each key once.
#[verifier::external_body]
pub(crate) fn document_value(document: Value) -> (r: JsonValue)
    ensures
        r@ == held(document),
{
    match document {
        Value::Null => JsonValue::Null,
        Value::Bool(b) => JsonValue::Bool(b),
        Value::Number(n) => JsonValue::Number(match (n.as_u64(), n.as_i64()) {
            (Some(u), _) => Number::PosInt(u),
            (None, Some(i)) => Number::NegInt(i),
            (None, None) => Number::Float(n.as_f64().unwrap_or_default().to_bits()),
        }),
        Value::String(s) => JsonValue::String(s),
        Value::Array(items) => JsonValue::Array(items.into_iter().map(document_value).collect()),
        Value::Object(fields) => JsonValue::Object(
            TextMap { entries: fields.into_iter().map(|(k, v)| (k, document_value(v))).collect() }),
    }
}

/// The value that bytes hold as JSON, or the text of the error.
pub fn parse_json(bytes: &[u8]) -> (r: Result<JsonValue, String>)
    ensures
        match r {
            Ok(v) => parsed_json(bytes@) == Ok::<Json, Seq<char>>(v@),
            Err(message) => parsed_json(bytes@) == Err::<Json, Seq<char>>(message@),
        },
{
    match parse_document(bytes) {
        Ok(document) => Ok(document_value(document)),
        Err(message) => Err(message),
    }
}

} // verus!
